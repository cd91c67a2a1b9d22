use herdr_sidebar::forwards::{ClientEndpointId, PortForward};
use herdr_sidebar::layout::ShellWorkspace;
use herdr_sidebar::port_panel::PortTarget;
use herdr_sidebar::repo_panel::RepoTarget;
use herdr_sidebar::schema::{PortInfo, PortStopParams, RepoInfo};
use herdr_sidebar::shell::{
    forward_stopped_message, local_url, ssh_forward_args, ClientShellState, ForwardStart, ShellCommand, ShellOutcome,
};

fn ssh() -> ClientEndpointId {
    ClientEndpointId::Ssh("box".into())
}

fn port(port: u16, pid: u32) -> PortInfo {
    PortInfo { port, pid, process: "p".into(), pane_id: "x".into(), workspace_id: "w".into() }
}

#[test]
fn tick_ports_polls_on_schedule_and_drops_another_machines_list() {
    let mut state: ClientShellState<()> = ClientShellState::new(ssh());
    let mut out = ShellOutcome::new();
    state.tick_ports(1000, false, true, &mut out);
    assert_eq!(out.commands, vec![ShellCommand::RequestPortList]);
    assert!(out.repaint);
    assert_eq!(state.ports_next_poll, Some(4000));
    assert_eq!(state.ports_endpoint, Some(ssh()));

    let mut out = ShellOutcome::new();
    state.tick_ports(2000, false, true, &mut out);
    assert!(out.commands.is_empty());

    state.complete_port_list(Some(vec![port(3000, 1)]));
    state.active_endpoint_id = ClientEndpointId::Local;
    let mut out = ShellOutcome::new();
    state.tick_ports(2500, true, true, &mut out);
    assert!(state.ports.is_empty());
    assert!(out.repaint);
    assert!(out.commands.is_empty());
    assert_eq!(state.ports_next_poll, None);
}

#[test]
fn tick_ports_goes_quiet_on_machines_without_port_support() {
    let mut state: ClientShellState<()> = ClientShellState::new(ssh());
    state.ports_supported = true;
    state.ports_endpoint = Some(ssh());
    state.ports = vec![port(1, 1)];
    let mut out = ShellOutcome::new();
    state.tick_ports(0, false, false, &mut out);
    assert!(!state.ports_supported);
    assert!(state.ports.is_empty());
    assert!(out.repaint && out.commands.is_empty());
    let mut collapsed: ClientShellState<()> = ClientShellState::new(ssh());
    collapsed.sidebar_collapsed = true;
    let mut out = ShellOutcome::new();
    collapsed.tick_ports(0, false, true, &mut out);
    assert!(out.commands.is_empty());
}

#[test]
fn complete_port_list_closes_automatic_tunnels_whose_listener_left() {
    let mut state: ClientShellState<u8> = ClientShellState::new(ssh());
    state.port_forwards.insert(ssh(), 3000, PortForward { local_port: 3000, manual: false, handle: 1 });
    state.port_forwards.insert(ssh(), 4000, PortForward { local_port: 4000, manual: false, handle: 2 });
    state.port_forwards.insert(ssh(), 5000, PortForward { local_port: 5000, manual: true, handle: 3 });
    state.port_forwards.insert(ClientEndpointId::Local, 6000, PortForward { local_port: 6000, manual: false, handle: 4 });
    assert!(state.complete_port_list(Some(vec![port(3000, 1)])));
    assert_eq!(state.port_forwards.local_port(&ssh(), 3000), Some(3000));
    assert_eq!(state.port_forwards.local_port(&ssh(), 4000), None);
    assert_eq!(state.port_forwards.local_port(&ssh(), 5000), Some(5000));
    assert_eq!(state.port_forwards.local_port(&ClientEndpointId::Local, 6000), Some(6000));
    assert!(!state.complete_port_list(Some(vec![port(3000, 1)])));
    assert!(state.complete_port_list(None));
    assert!(state.ports.is_empty());
}

#[test]
fn activating_port_rows() {
    let mut state: ClientShellState<()> = ClientShellState::new(ssh());
    state.ports_next_poll = Some(99);
    state.port_forwards.insert(ssh(), 3000, PortForward { local_port: 3005, manual: false, handle: () });
    let mut out = ShellOutcome::new();
    state.activate_port_row(PortTarget::Open(3000), &mut out);
    state.activate_port_row(PortTarget::Open(4000), &mut out);
    state.activate_port_row(PortTarget::Forward, &mut out);
    state.activate_port_row(PortTarget::Stop { port: 3000, pid: 7 }, &mut out);
    assert!(out.repaint);
    assert_eq!(
        out.commands,
        vec![
            ShellCommand::OpenWhenReady(3005),
            ShellCommand::StartForward { endpoint: ssh(), profile_id: "box".into(), port: 4000, manual: false },
            ShellCommand::PromptForwardPort,
            ShellCommand::StopPort(PortStopParams { port: 3000, pid: 7 }),
        ]
    );
    assert_eq!(state.ports_next_poll, None);
    assert_eq!(state.port_forwards.len(), 0);

    let mut local: ClientShellState<()> = ClientShellState::new(ClientEndpointId::Local);
    let mut out = ShellOutcome::new();
    local.activate_port_row(PortTarget::Open(8080), &mut out);
    assert_eq!(out.commands, vec![ShellCommand::OpenWhenReady(8080)]);
}

#[test]
fn close_removes_only_the_tunnel() {
    let mut state: ClientShellState<()> = ClientShellState::new(ssh());
    state.port_forwards.insert(ssh(), 9000, PortForward { local_port: 9000, manual: true, handle: () });
    let mut out = ShellOutcome::new();
    state.activate_port_row(PortTarget::Close(9000), &mut out);
    assert!(out.commands.is_empty() && out.repaint);
    assert_eq!(state.port_forwards.len(), 0);
}

#[test]
fn completing_a_forward() {
    let mut state: ClientShellState<u8> = ClientShellState::new(ssh());
    let mut out = ShellOutcome::new();
    state.complete_forward(ssh(), 3000, false, ForwardStart::Started { local_port: 3001, handle: 1 }, &mut out);
    state.complete_forward(ssh(), 5432, true, ForwardStart::Started { local_port: 5432, handle: 2 }, &mut out);
    state.complete_forward(ssh(), 80, false, ForwardStart::NoTarget, &mut out);
    state.complete_forward(ssh(), 81, false, ForwardStart::Failed("denied".into()), &mut out);
    assert_eq!(
        out.commands,
        vec![
            ShellCommand::OpenWhenReady(3001),
            ShellCommand::ShowError("could not find this machine's SSH target to forward the port".into()),
            ShellCommand::ShowError("could not start ssh for port 81: denied".into()),
        ]
    );
    assert_eq!(state.port_forwards.local_port(&ssh(), 3000), Some(3001));
    assert_eq!(state.port_forwards.local_port(&ssh(), 5432), Some(5432));
    assert_eq!(state.port_forwards.len(), 2);
}

#[test]
fn forward_prompt_accepts_port_numbers_only() {
    let mut state: ClientShellState<()> = ClientShellState::new(ssh());
    let mut out = ShellOutcome::new();
    state.forward_port_from_input("  5432 \n", &mut out);
    state.forward_port_from_input("+8", &mut out);
    state.forward_port_from_input(" 0 ", &mut out);
    state.forward_port_from_input("70000", &mut out);
    state.forward_port_from_input(" db ", &mut out);
    state.forward_port_from_input("-1", &mut out);
    assert_eq!(
        out.commands,
        vec![
            ShellCommand::StartForward { endpoint: ssh(), profile_id: "box".into(), port: 5432, manual: true },
            ShellCommand::StartForward { endpoint: ssh(), profile_id: "box".into(), port: 8, manual: true },
            ShellCommand::ShowError("'0' is not a port number".into()),
            ShellCommand::ShowError("'70000' is not a port number".into()),
            ShellCommand::ShowError("'db' is not a port number".into()),
            ShellCommand::ShowError("'-1' is not a port number".into()),
        ]
    );
}

#[test]
fn exited_tunnels_are_reported_with_the_last_line_of_ssh() {
    assert_eq!(forward_stopped_message(8080, "warning\nbind: Address in use \r\n"), "port 8080 forward stopped: bind: Address in use");
    assert_eq!(forward_stopped_message(22, ""), "port 22 forward stopped: ssh exited");
    assert_eq!(forward_stopped_message(1, "a\n\n"), "port 1 forward stopped: ");
    let mut state: ClientShellState<()> = ClientShellState::new(ssh());
    state.port_forwards.insert(ssh(), 8080, PortForward { local_port: 8080, manual: false, handle: () });
    let mut out = ShellOutcome::new();
    state.forward_exited(&ssh(), 8080, "refused\n", &mut out);
    assert_eq!(out.commands, vec![ShellCommand::ShowError("port 8080 forward stopped: refused".into())]);
    assert!(out.repaint);
    assert_eq!(state.port_forwards.len(), 0);
}

#[test]
fn ssh_arguments_and_browser_address() {
    assert_eq!(
        ssh_forward_args("me@box", 3001, 3000),
        vec!["-N", "-o", "ExitOnForwardFailure=yes", "-o", "BatchMode=yes", "-L", "127.0.0.1:3001:localhost:3000", "me@box"]
    );
    assert_eq!(local_url(0), "http://localhost:0");
    assert_eq!(local_url(65535), "http://localhost:65535");
}

fn repo(group: &str, name: &str) -> RepoInfo {
    RepoInfo {
        name: name.into(),
        path: format!("/home/me/{group}/{name}"),
        group: group.into(),
        group_label: group.into(),
        group_path: format!("/home/me/{group}"),
    }
}

#[test]
fn tick_repos_fetches_each_machines_own_repos() {
    let mut state: ClientShellState<()> = ClientShellState::new(ssh());
    let mut out = ShellOutcome::new();
    state.tick_repos(0, false, true, &mut out);
    assert_eq!(out.commands, vec![ShellCommand::RequestRepoList]);
    assert_eq!(state.repos_next_poll, Some(30000));
    assert!(state.complete_repo_list(Some(vec![repo("dev", "a")])));
    state.repo_scroll = 4;
    state.active_endpoint_id = ClientEndpointId::Local;
    let mut out = ShellOutcome::new();
    state.tick_repos(10, false, false, &mut out);
    assert!(state.repos.is_empty());
    assert_eq!(state.repo_scroll, 0);
    assert!(out.repaint && out.commands.is_empty());
    assert!(!state.complete_repo_list(None));
}

#[test]
fn activating_repo_rows() {
    let mut state: ClientShellState<()> = ClientShellState::new(ssh());
    state.repos = vec![repo("dev", "solo"), repo("work", "api")];
    let spaces = vec![ShellWorkspace { workspace_id: "w7".into(), label: "solo".into(), focused: false }];
    let mut out = ShellOutcome::new();
    state.activate_repo_row(RepoTarget::Group("dev".into()), Some(&spaces), &mut out);
    assert!(state.collapsed_repo_groups.contains("dev"));
    state.activate_repo_row(RepoTarget::Repo(0), Some(&spaces), &mut out);
    state.activate_repo_row(RepoTarget::OpenGroup("work".into()), Some(&spaces), &mut out);
    state.activate_repo_row(RepoTarget::Repo(1), None, &mut out);
    assert_eq!(
        out.commands,
        vec![
            ShellCommand::FocusWorkspace("w7".into()),
            ShellCommand::CreateWorkspace { cwd: "/home/me/work".into(), label: "work".into() },
            ShellCommand::CreateWorkspace { cwd: "/home/me/work/api".into(), label: "api".into() },
        ]
    );
    let mut out = ShellOutcome::new();
    state.activate_repo_row(RepoTarget::Repo(9), Some(&spaces), &mut out);
    assert!(!out.repaint && out.commands.is_empty());
    state.activate_repo_row(RepoTarget::Group("dev".into()), None, &mut out);
    assert!(!state.collapsed_repo_groups.contains("dev"));
    assert!(out.repaint);
}
