use herdr_sidebar::layout::{DrawOp, Rect, ShellWorkspace, Tone};
use herdr_sidebar::port_panel::{port_rows, ports_section_height, render_port_panel, PortRow, PortTarget};
use herdr_sidebar::forwards::{ClientEndpointId, PortForward, PortForwards};
use herdr_sidebar::repo_panel::{group_display_label, render_repo_panel, rows, space_for, CollapsedGroups, RepoTarget};
use herdr_sidebar::schema::{PortInfo, RepoInfo};

fn repo(group: &str, name: &str) -> RepoInfo {
    RepoInfo {
        name: name.into(),
        path: format!("/home/me/{group}/{name}"),
        group: group.into(),
        group_label: group.into(),
        group_path: format!("/home/me/{group}"),
    }
}

fn port(port: u16, pid: u32, process: &str, workspace: &str) -> PortInfo {
    PortInfo {
        port,
        pid,
        process: process.into(),
        pane_id: format!("p{pid}"),
        workspace_id: workspace.into(),
    }
}

fn collapsed_of(groups: &[&str]) -> CollapsedGroups {
    let mut c = CollapsedGroups::new();
    for g in groups {
        c.insert((*g).to_owned());
    }
    c
}

fn text(op: &DrawOp) -> &str {
    match op {
        DrawOp::Text { text, .. } => text.as_str(),
        DrawOp::Fill { .. } => "",
    }
}

#[test]
fn ports_section_shows_whenever_supported_and_caps_at_a_third() {
    assert_eq!(ports_section_height(false, 5, 30), 0);
    assert_eq!(ports_section_height(true, 0, 30), 4);
    assert_eq!(ports_section_height(true, 2, 30), 5);
    assert_eq!(ports_section_height(true, 20, 30), 10);
}

#[test]
fn ports_section_height_is_zero_without_room_for_a_third() {
    assert_eq!(ports_section_height(true, 3, 2), 0);
    assert_eq!(ports_section_height(true, 3, 15), 5);
}

#[test]
fn rows_group_repos_and_hide_collapsed_members() {
    let repos = vec![repo("dev", "solo"), repo("personal", "app"), repo("work", "api")];
    let collapsed = collapsed_of(&["personal"]);
    assert_eq!(
        rows(&repos, &collapsed),
        vec![
            RepoTarget::Group("dev".into()),
            RepoTarget::Repo(0),
            RepoTarget::Group("personal".into()),
            RepoTarget::Group("work".into()),
            RepoTarget::Repo(2),
        ]
    );
    assert_eq!(
        space_for(&repos, &RepoTarget::OpenGroup("personal".into())),
        Some(("personal".into(), "/home/me/personal".into()))
    );
    assert_eq!(
        space_for(&repos, &RepoTarget::Repo(2)),
        Some(("api".into(), "/home/me/work/api".into()))
    );
}

#[test]
fn group_header_label_uses_the_immediate_parent_not_the_full_relative_path() {
    let nested = RepoInfo {
        name: "app".into(),
        path: "/home/me/Multiplex/KMS/app".into(),
        group: "Multiplex/KMS".into(),
        group_label: "KMS".into(),
        group_path: "/home/me/Multiplex/KMS".into(),
    };
    let repos = vec![nested];
    assert_eq!(group_display_label(&repos, "Multiplex/KMS"), "KMS");
}

#[test]
fn group_label_falls_back_to_the_group_itself() {
    let repos = vec![repo("dev", "solo")];
    assert_eq!(group_display_label(&repos, "other"), "other");
}

#[test]
fn rows_put_one_header_per_run_of_a_group() {
    let repos = vec![repo("a", "x"), repo("a", "y"), repo("b", "z")];
    let collapsed = CollapsedGroups::new();
    assert_eq!(
        rows(&repos, &collapsed),
        vec![
            RepoTarget::Group("a".into()),
            RepoTarget::Repo(0),
            RepoTarget::Repo(1),
            RepoTarget::Group("b".into()),
            RepoTarget::Repo(2),
        ]
    );
}

#[test]
fn space_for_is_none_outside_the_list() {
    let repos = vec![repo("dev", "solo")];
    assert_eq!(space_for(&repos, &RepoTarget::Repo(1)), None);
    assert_eq!(space_for(&repos, &RepoTarget::Group("nope".into())), None);
}

#[test]
fn collapsed_groups_toggle_back_and_forth() {
    let mut c = CollapsedGroups::new();
    c.toggle("dev".into());
    assert!(c.contains("dev"));
    c.toggle("dev".into());
    assert!(!c.contains("dev"));
    assert!(!c.remove("dev"));
}

#[test]
fn port_rows_list_panes_then_sorted_manual_forwards() {
    let ssh = ClientEndpointId::Ssh("box".into());
    let ports = vec![port(3000, 10, "node", "w1"), port(5432, 11, "postgres", "w1")];
    let mut forwards: PortForwards<()> = PortForwards::new();
    forwards.insert(ssh.clone(), 3000, PortForward { local_port: 3001, manual: false, handle: () });
    forwards.insert(ssh.clone(), 9000, PortForward { local_port: 9000, manual: true, handle: () });
    forwards.insert(ssh.clone(), 8000, PortForward { local_port: 8000, manual: true, handle: () });
    forwards.insert(ClientEndpointId::Local, 7000, PortForward { local_port: 7000, manual: true, handle: () });
    assert_eq!(
        port_rows(&ports, &ssh, &forwards),
        vec![
            PortRow { port: 3000, pane: Some(0), local_port: Some(3001) },
            PortRow { port: 5432, pane: Some(1), local_port: None },
            PortRow { port: 8000, pane: None, local_port: Some(8000) },
            PortRow { port: 9000, pane: None, local_port: Some(9000) },
        ]
    );
}

#[test]
fn port_forwards_keep_one_tunnel_per_key() {
    let ssh = ClientEndpointId::Ssh("box".into());
    let mut forwards: PortForwards<u8> = PortForwards::new();
    assert!(forwards.insert(ssh.clone(), 80, PortForward { local_port: 8080, manual: false, handle: 1 }).is_none());
    let replaced = forwards.insert(ssh.clone(), 80, PortForward { local_port: 8081, manual: true, handle: 2 });
    assert_eq!(replaced.map(|f| f.handle), Some(1));
    assert_eq!(forwards.len(), 1);
    assert_eq!(forwards.local_port(&ssh, 80), Some(8081));
    assert_eq!(forwards.local_port(&ClientEndpointId::Local, 80), None);
    assert_eq!(forwards.remove(&ssh, 80).map(|f| f.local_port), Some(8081));
    assert_eq!(forwards.len(), 0);
    assert!(forwards.remove(&ssh, 80).is_none());
}

#[test]
fn port_panel_draws_rows_with_labels_and_stop_buttons() {
    let ssh = ClientEndpointId::Ssh("box".into());
    let ports = vec![port(3000, 42, "node", "w1")];
    let workspaces = vec![ShellWorkspace { workspace_id: "w1".into(), label: "web".into(), focused: false }];
    let rows = vec![
        PortRow { port: 3000, pane: Some(0), local_port: Some(3001) },
        PortRow { port: 8000, pane: None, local_port: Some(8000) },
    ];
    let area = Rect { x: 0, y: 10, width: 20, height: 6 };
    let panel = render_port_panel(area, &workspaces, true, &rows, &ports, &ssh);
    let texts: Vec<&str> = panel.ops.iter().map(text).collect();
    assert_eq!(
        texts,
        vec!["─".repeat(20).as_str(), " ports", "+ forward", " :3000→3001 node · web", "✕", " :8000→8000 manual", "✕"]
    );
    assert_eq!(
        panel.ops[3],
        DrawOp::Text { x: 0, y: 13, width: 18, text: " :3000→3001 node · web".into(), tone: Tone::Accent }
    );
    assert_eq!(
        panel.hits,
        vec![
            (Rect { x: 10, y: 11, width: 10, height: 1 }, PortTarget::Forward),
            (Rect { x: 18, y: 13, width: 2, height: 1 }, PortTarget::Stop { port: 3000, pid: 42 }),
            (Rect { x: 0, y: 13, width: 18, height: 1 }, PortTarget::Open(3000)),
            (Rect { x: 18, y: 14, width: 2, height: 1 }, PortTarget::Close(8000)),
            (Rect { x: 0, y: 14, width: 18, height: 1 }, PortTarget::Open(8000)),
        ]
    );
}

#[test]
fn port_panel_notes_an_empty_list_and_cuts_rows_that_do_not_fit() {
    let area = Rect { x: 0, y: 0, width: 30, height: 5 };
    let empty = render_port_panel(area, &vec![], true, &vec![], &vec![], &ClientEndpointId::Local);
    let texts: Vec<&str> = empty.ops.iter().map(text).collect();
    assert_eq!(texts[1..].to_vec(), vec![" ports", " no ports in panes"]);
    assert!(empty.hits.is_empty());
    let ports = vec![port(1, 1, "a", "w"), port(2, 2, "b", "w"), port(3, 3, "c", "w")];
    let rows: Vec<PortRow> = (0..3).map(|i| PortRow { port: ports[i].port, pane: Some(i), local_port: None }).collect();
    let panel = render_port_panel(area, &vec![], false, &rows, &ports, &ClientEndpointId::Local);
    assert_eq!(panel.ops.len(), 2 + 2 * 2);
    assert_eq!(text(&panel.ops[2]), " :1 a · ");
    let tiny = render_port_panel(Rect { x: 0, y: 0, width: 30, height: 1 }, &vec![], true, &rows, &ports, &ClientEndpointId::Local);
    assert!(tiny.ops.is_empty() && tiny.hits.is_empty());
}

#[test]
fn repo_panel_draws_headers_and_highlights_the_focused_space() {
    let repos = vec![repo("dev", "solo"), repo("personal", "app")];
    let collapsed = collapsed_of(&["personal"]);
    let workspaces = vec![ShellWorkspace { workspace_id: "w9".into(), label: "solo".into(), focused: true }];
    let mut scroll = 7;
    let area = Rect { x: 2, y: 0, width: 12, height: 8 };
    let panel = render_repo_panel(area, &workspaces, &repos, &collapsed, &mut scroll);
    assert_eq!(scroll, 0);
    assert_eq!(panel.max_scroll, Some(0));
    assert_eq!(panel.body, Some(Rect { x: 2, y: 3, width: 12, height: 5 }));
    let texts: Vec<&str> = panel.ops.iter().map(text).collect();
    assert_eq!(texts[1..].to_vec(), vec![" repos", " ▾ dev", "", "   solo", " ▸ personal"]);
    assert_eq!(panel.ops[3], DrawOp::Fill { area: Rect { x: 2, y: 4, width: 12, height: 1 }, tone: Tone::ActiveRow });
    assert_eq!(
        panel.hits,
        vec![
            (Rect { x: 2, y: 3, width: 3, height: 1 }, RepoTarget::Group("dev".into())),
            (Rect { x: 5, y: 3, width: 9, height: 1 }, RepoTarget::OpenGroup("dev".into())),
            (Rect { x: 2, y: 4, width: 12, height: 1 }, RepoTarget::Repo(0)),
            (Rect { x: 2, y: 5, width: 3, height: 1 }, RepoTarget::Group("personal".into())),
            (Rect { x: 5, y: 5, width: 9, height: 1 }, RepoTarget::OpenGroup("personal".into())),
        ]
    );
}

#[test]
fn repo_panel_clamps_the_scroll_to_the_rows_that_do_not_fit() {
    let repos = vec![repo("a", "1"), repo("a", "2"), repo("a", "3"), repo("a", "4")];
    let mut scroll = 10;
    let area = Rect { x: 0, y: 0, width: 10, height: 5 };
    let panel = render_repo_panel(area, &vec![], &repos, &CollapsedGroups::new(), &mut scroll);
    assert_eq!(panel.max_scroll, Some(3));
    assert_eq!(scroll, 3);
    let texts: Vec<&str> = panel.ops.iter().map(text).collect();
    assert_eq!(texts[2..].to_vec(), vec!["   3", "   4"]);
    let mut scroll = 1;
    let flat = render_repo_panel(Rect { x: 0, y: 0, width: 10, height: 3 }, &vec![], &repos, &CollapsedGroups::new(), &mut scroll);
    assert_eq!(flat.body, Some(Rect { x: 0, y: 3, width: 10, height: 0 }));
    assert_eq!(flat.max_scroll, None);
    assert_eq!(scroll, 1);
}
