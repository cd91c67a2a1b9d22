use herdr_sidebar::api::{App, ListeningPort, PaneRuntime, PaneSlot, ResponseResult};
use herdr_sidebar::repo_scan::{entry_action, repo_entry, scan, with_forward_slashes, EntryAction, ParentDir};
use herdr_sidebar::schema::{PortInfo, PortStopParams, RepoInfo};

fn slot(pid: Option<u32>, pane: Option<&str>, workspace: &str) -> PaneSlot {
    PaneSlot {
        runtime: Some(PaneRuntime { child_pid: pid, workspace_id: workspace.into() }),
        public_pane_id: pane.map(|p| p.to_owned()),
    }
}

fn listening(port: u16, pid: u32, process: &str, root_pid: u32) -> ListeningPort {
    ListeningPort { port, pid, process: process.into(), root_pid }
}

fn app() -> App {
    App {
        panes: vec![
            slot(Some(100), Some("p1"), "w1"),
            slot(None, Some("p2"), "w1"),
            PaneSlot { runtime: None, public_pane_id: Some("p3".into()) },
            slot(Some(200), None, "w2"),
            slot(Some(300), Some("p5"), "w2"),
        ],
    }
}

#[test]
fn pane_ports_attribute_listeners_to_their_pane() {
    let app = app();
    assert_eq!(app.root_pids(), vec![100, 300]);
    let ports = app.pane_ports(&vec![
        listening(3000, 101, "node", 100),
        listening(22, 1, "sshd", 1),
        listening(8080, 300, "python", 300),
    ]);
    assert_eq!(
        ports,
        vec![
            PortInfo { port: 3000, pid: 101, process: "node".into(), pane_id: "p1".into(), workspace_id: "w1".into() },
            PortInfo { port: 8080, pid: 300, process: "python".into(), pane_id: "p5".into(), workspace_id: "w2".into() },
        ]
    );
}

#[test]
fn port_list_reply_carries_the_pane_ports() {
    let reply = app().handle_port_list("r1".into(), &vec![listening(3000, 101, "node", 100)]);
    assert_eq!(reply.id, "r1");
    match reply.result {
        Ok(ResponseResult::PortList { ports }) => assert_eq!(ports.len(), 1),
        other => panic!("unexpected {other:?}"),
    }
}

#[test]
fn port_stop_kills_only_a_pane_listener() {
    let listeners = vec![listening(3000, 101, "node", 100), listening(22, 1, "sshd", 1)];
    let ok = app().handle_port_stop("a".into(), PortStopParams { port: 3000, pid: 101 }, &listeners);
    assert_eq!(ok.kill, Some(101));
    assert!(matches!(ok.response.result, Ok(ResponseResult::Acknowledged)));
    let refused = app().handle_port_stop("b".into(), PortStopParams { port: 22, pid: 1 }, &listeners);
    assert_eq!(refused.kill, None);
    assert_eq!(refused.response.id, "b");
    match refused.response.result {
        Err(e) => {
            assert_eq!(e.code, "port_not_found");
            assert_eq!(e.message, "no pane process listens on that port");
        },
        other => panic!("unexpected {other:?}"),
    }
    let wrong_pid = app().handle_port_stop("c".into(), PortStopParams { port: 3000, pid: 1 }, &listeners);
    assert_eq!(wrong_pid.kill, None);
}

fn found(group: &str, name: &str, path: &str) -> RepoInfo {
    RepoInfo {
        name: name.into(),
        path: path.into(),
        group: group.into(),
        group_label: group.into(),
        group_path: String::new(),
    }
}

#[test]
fn scan_sorts_by_group_then_name_ignoring_case_and_drops_repeated_paths() {
    let repos = scan(vec![
        found("work", "b", "/w/b"),
        found("Dev", "Zed", "/d/zed"),
        found("dev", "alpha", "/d/alpha"),
        found("work", "A", "/w/a"),
        found("work", "a", "/w/a"),
    ]);
    let names: Vec<&str> = repos.iter().map(|r| r.name.as_str()).collect();
    assert_eq!(names, vec!["alpha", "Zed", "A", "b"]);
}

#[test]
fn scan_keeps_the_walk_order_of_equal_keys() {
    let repos = scan(vec![found("g", "x", "/1"), found("G", "X", "/2")]);
    let paths: Vec<&str> = repos.iter().map(|r| r.path.as_str()).collect();
    assert_eq!(paths, vec!["/1", "/2"]);
}

/// A folder of the simulated tree: its name, whether it holds `.git`, and its subfolders.
struct Folder {
    name: &'static str,
    git: bool,
    children: Vec<Folder>,
}

fn folder(name: &'static str, git: bool, children: Vec<Folder>) -> Folder {
    Folder { name, git, children }
}

/// Walks the simulated tree as the server walks a root, with the library's decisions.
fn walk(root_path: &str, root_name: &str, dir_rel: &str, dir_path: &str, dir_name: &str, dir: &Folder, depth: usize, out: &mut Vec<RepoInfo>) {
    for child in &dir.children {
        let path = format!("{dir_path}/{}", child.name);
        match entry_action(depth, child.name, true, child.git) {
            EntryAction::Skip => {},
            EntryAction::Descend(next) => {
                let rel = if dir_rel.is_empty() { child.name.to_owned() } else { format!("{dir_rel}/{}", child.name) };
                walk(root_path, root_name, &rel, &path, child.name, child, next, out);
            },
            EntryAction::Repo => {
                let parent = ParentDir {
                    relative: Some(dir_rel.to_owned()),
                    name: Some(dir_name.to_owned()),
                    path: dir_path.to_owned(),
                };
                out.push(repo_entry(child.name.to_owned(), path, &parent, root_name));
            },
        }
    }
    let _ = root_path;
}

#[test]
fn scan_groups_repos_by_parent_and_skips_nested_repos() {
    let root = folder("dev", false, vec![
        folder("personal", false, vec![folder("app", true, vec![folder("sub", true, vec![])])]),
        folder("work", false, vec![folder("api", true, vec![])]),
        folder("solo", true, vec![]),
        folder("empty", false, vec![folder("x", false, vec![])]),
    ]);
    let mut out = Vec::new();
    walk("/tmp/dev", "dev", "", "/tmp/dev", "dev", &root, 3, &mut out);
    let repos = scan(out);
    let found: Vec<(&str, &str, &str)> = repos
        .iter()
        .map(|repo| (repo.group.as_str(), repo.name.as_str(), repo.group_label.as_str()))
        .collect();
    assert_eq!(found, vec![("dev", "solo", "dev"), ("personal", "app", "personal"), ("work", "api", "work")]);
    assert_eq!(repos[1].group_path, "/tmp/dev/personal");
}

#[test]
fn entry_action_skips_hidden_and_build_folders_and_stops_at_the_depth() {
    assert_eq!(entry_action(2, ".cache", true, true), EntryAction::Skip);
    assert_eq!(entry_action(2, "node_modules", true, false), EntryAction::Skip);
    assert_eq!(entry_action(2, "target", true, false), EntryAction::Skip);
    assert_eq!(entry_action(2, "file.txt", false, false), EntryAction::Skip);
    assert_eq!(entry_action(0, "src", true, true), EntryAction::Skip);
    assert_eq!(entry_action(2, "src", true, false), EntryAction::Descend(1));
    assert_eq!(entry_action(1, "repo", true, true), EntryAction::Repo);
    assert_eq!(entry_action(2, "targets", true, false), EntryAction::Descend(1));
}

#[test]
fn repo_entry_uses_forward_slashes_and_falls_back_to_the_root_name() {
    let nested = ParentDir { relative: Some("a\\b".into()), name: Some("b".into()), path: "C:\\r\\a\\b".into() };
    let repo = repo_entry("x".into(), "C:\\r\\a\\b\\x".into(), &nested, "r");
    assert_eq!(repo.group, "a/b");
    assert_eq!(repo.group_label, "b");
    assert_eq!(repo.group_path, "C:\\r\\a\\b");
    let top = ParentDir { relative: Some(String::new()), name: None, path: "/".into() };
    let repo = repo_entry("x".into(), "/x".into(), &top, "root");
    assert_eq!(repo.group, "root");
    assert_eq!(repo.group_label, "root");
    let outside = ParentDir { relative: None, name: Some("p".into()), path: "/p".into() };
    assert_eq!(repo_entry("x".into(), "/p/x".into(), &outside, "root").group, "root");
    assert_eq!(with_forward_slashes("\\\\a"), "//a");
}

#[test]
fn repo_list_reply_is_sorted() {
    let app = App { panes: vec![] };
    let reply = app.handle_repo_list("q".into(), vec![found("b", "x", "/b/x"), found("a", "y", "/a/y")]);
    match reply.result {
        Ok(ResponseResult::RepoList { repos }) => assert_eq!(repos[0].group, "a"),
        other => panic!("unexpected {other:?}"),
    }
}
