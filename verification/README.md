# herdr_sidebar

The ports and repos sections of a terminal multiplexer's sidebar, with the
decisions behind them proved in Verus.

- `src/schema.rs`: the records a server reports (`PortInfo`, `PortStopParams`, `RepoInfo`).
- `src/api.rs`: the server's answers: which listeners belong to panes, when a
  port may be stopped, and the repo list.
- `src/repo_scan.rs`: the repo walk's decisions and the order of the list
  (stable sort by lowercased group and name, then consecutive duplicate paths dropped).
- `src/forwards.rs`: machine ids and the table of SSH tunnels, viewed as a map.
- `src/port_panel.rs`, `src/repo_panel.rs`: rows, heights and the drawing
  instructions and click targets of both sections.
- `src/shell.rs`: the client's polling, list updates and click handling, as
  state changes plus commands for the shell to carry out.
- `src/text.rs`, `src/layout.rs`: character-level string helpers and geometry.

`app/` holds what touches the outside world: the serde/schemars forms of the
records, the filesystem walk, the platform's listeners, and the ssh processes.
