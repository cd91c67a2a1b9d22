//! Verified core of the sidebar's ports and repos panels: the data the server
//! reports, the decisions the client makes on it, and the layout it draws.

pub mod text;
pub mod schema;
pub mod repo_scan;
pub mod api;
pub mod forwards;
pub mod layout;
pub mod port_panel;
pub mod repo_panel;
pub mod shell;
