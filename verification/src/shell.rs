//! The client shell's decisions for the ports and repos sections: when to
//! ask the machine for its lists, what to keep when they arrive, and what a
//! click does. The shell performs the requests and tunnels these decisions
//! name, and hands their outcomes back.

use vstd::prelude::*;

use crate::forwards::{same_endpoint_opt, ClientEndpointId, PortForward, PortForwards};
use crate::layout::{find_workspace_by_label, workspace_views, workspace_with_label, ShellWorkspace, ShellWorkspaceView};
use crate::port_panel::PortTarget;
use crate::repo_panel::{space_for, spec_space_for, CollapsedGroups, RepoTarget, RepoTargetView};
use crate::schema::{ports_equal, repos_equal, views, PortInfo, PortInfoView, PortStopParams, RepoInfo, RepoInfoView};
use crate::text::{decimal, last_line, last_line_of, parse_u16, push_decimal, spec_parse_u16, trim, trimmed};

verus! {

/// How often the listeners of the active machine are polled, in milliseconds.
pub const PORT_POLL_INTERVAL_MS: u64 = 3000;

/// How often the repos of the active machine are fetched, in milliseconds.
/// Repos change rarely; the list also refreshes on machine switch.
pub const REPO_POLL_INTERVAL_MS: u64 = 30000;

/// Work the shell carries out for a decision.
#[derive(Debug, PartialEq, Eq)]
pub enum ShellCommand {
    /// Ask the active machine for its pane listeners.
    RequestPortList,
    /// Ask the active machine for its repos.
    RequestRepoList,
    /// Ask the active machine to stop a pane listener.
    StopPort(PortStopParams),
    /// Open the browser on a local port once it accepts connections.
    OpenWhenReady(u16),
    /// Look up the SSH target of the profile and start a tunnel for `port`;
    /// the outcome comes back through `complete_forward`.
    StartForward { endpoint: ClientEndpointId, profile_id: String, port: u16, manual: bool },
    /// Show an error about the machine.
    ShowError(String),
    /// Ask for a port number to forward by hand.
    PromptForwardPort,
    /// Focus an open space.
    FocusWorkspace(String),
    /// Create and focus a space in `cwd` labelled `label`.
    CreateWorkspace { cwd: String, label: String },
}

/// A `ShellCommand` with its strings as characters.
pub enum ShellCommandView {
    RequestPortList,
    RequestRepoList,
    StopPort(PortStopParams),
    OpenWhenReady(u16),
    StartForward { endpoint: Option<Seq<char>>, profile_id: Seq<char>, port: u16, manual: bool },
    ShowError(Seq<char>),
    PromptForwardPort,
    FocusWorkspace(Seq<char>),
    CreateWorkspace { cwd: Seq<char>, label: Seq<char> },
}

impl View for ShellCommand {
    type V = ShellCommandView;

    open spec fn view(&self) -> ShellCommandView {
        match self {
            ShellCommand::RequestPortList => ShellCommandView::RequestPortList,
            ShellCommand::RequestRepoList => ShellCommandView::RequestRepoList,
            ShellCommand::StopPort(p) => ShellCommandView::StopPort(*p),
            ShellCommand::OpenWhenReady(p) => ShellCommandView::OpenWhenReady(*p),
            ShellCommand::StartForward { endpoint, profile_id, port, manual } => ShellCommandView::StartForward {
                endpoint: endpoint@,
                profile_id: profile_id@,
                port: *port,
                manual: *manual,
            },
            ShellCommand::ShowError(m) => ShellCommandView::ShowError(m@),
            ShellCommand::PromptForwardPort => ShellCommandView::PromptForwardPort,
            ShellCommand::FocusWorkspace(id) => ShellCommandView::FocusWorkspace(id@),
            ShellCommand::CreateWorkspace { cwd, label } => ShellCommandView::CreateWorkspace { cwd: cwd@, label: label@ },
        }
    }
}

/// What a step of the shell asks of the screen and of the machine.
#[derive(Debug)]
pub struct ShellOutcome {
    pub repaint: bool,
    pub commands: Vec<ShellCommand>,
}

/// The views of a sequence of commands.
pub open spec fn command_views(s: Seq<ShellCommand>) -> Seq<ShellCommandView> {
    s.map_values(|c: ShellCommand| c@)
}

impl ShellOutcome {
    /// Nothing to repaint, nothing to do.
    pub fn new() -> (o: ShellOutcome)
        ensures
            !o.repaint,
            o.commands@.len() == 0,
    {
        ShellOutcome { repaint: false, commands: Vec::new() }
    }

    fn push(&mut self, c: ShellCommand)
        ensures
            final(self).repaint == old(self).repaint,
            command_views(final(self).commands@) == command_views(old(self).commands@).push(c@),
    {
        let ghost before = command_views(self.commands@);
        let ghost cv = c@;
        self.commands.push(c);
        assert(command_views(self.commands@) =~= before.push(cv));
    }
}

/// The state of the client shell that the ports and repos sections read and change.
pub struct ClientShellState<H> {
    /// The machine the shell shows.
    pub active_endpoint_id: ClientEndpointId,
    pub sidebar_collapsed: bool,
    /// The machine the port list was fetched from.
    pub ports_endpoint: Option<ClientEndpointId>,
    /// When the listeners are polled next, in milliseconds.
    pub ports_next_poll: Option<u64>,
    pub ports: Vec<PortInfo>,
    /// Whether the active machine can report its listeners.
    pub ports_supported: bool,
    pub port_forwards: PortForwards<H>,
    /// The machine the repo list was fetched from.
    pub repos_endpoint: Option<ClientEndpointId>,
    /// When the repos are fetched next, in milliseconds.
    pub repos_next_poll: Option<u64>,
    pub repo_scroll: usize,
    pub repos: Vec<RepoInfo>,
    pub collapsed_repo_groups: CollapsedGroups,
}

/// The endpoint view of an optional endpoint.
pub open spec fn opt_endpoint(e: Option<ClientEndpointId>) -> Option<Option<Seq<char>>> {
    match e {
        Some(x) => Some(x@),
        None => None,
    }
}

impl<H> ClientShellState<H> {
    /// A shell showing `active`, with the sidebar open, no lists fetched yet,
    /// no tunnels and no group collapsed.
    pub fn new(active: ClientEndpointId) -> (s: Self)
        ensures
            s.active_endpoint_id@ == active@,
            !s.sidebar_collapsed,
            s.ports_endpoint is None,
            s.ports_next_poll is None,
            s.ports@.len() == 0,
            !s.ports_supported,
            s.port_forwards.wf(),
            s.port_forwards.map().len() == 0,
            s.repos_endpoint is None,
            s.repos_next_poll is None,
            s.repo_scroll == 0,
            s.repos@.len() == 0,
            s.collapsed_repo_groups@.len() == 0,
    {
        ClientShellState {
            active_endpoint_id: active,
            sidebar_collapsed: false,
            ports_endpoint: None,
            ports_next_poll: None,
            ports: Vec::new(),
            ports_supported: false,
            port_forwards: PortForwards::new(),
            repos_endpoint: None,
            repos_next_poll: None,
            repo_scroll: 0,
            repos: Vec::new(),
            collapsed_repo_groups: CollapsedGroups::new(),
        }
    }

    /// The fields outside the ports section are those of `other`.
    pub open spec fn same_outside_ports(&self, other: &Self) -> bool {
        &&& self.active_endpoint_id@ == other.active_endpoint_id@
        &&& self.sidebar_collapsed == other.sidebar_collapsed
        &&& opt_endpoint(self.repos_endpoint) == opt_endpoint(other.repos_endpoint)
        &&& self.repos_next_poll == other.repos_next_poll
        &&& self.repo_scroll == other.repo_scroll
        &&& views(self.repos@) == views(other.repos@)
        &&& self.collapsed_repo_groups@ == other.collapsed_repo_groups@
    }

    /// The fields outside the repos section are those of `other`.
    pub open spec fn same_outside_repos(&self, other: &Self) -> bool {
        &&& self.active_endpoint_id@ == other.active_endpoint_id@
        &&& self.sidebar_collapsed == other.sidebar_collapsed
        &&& opt_endpoint(self.ports_endpoint) == opt_endpoint(other.ports_endpoint)
        &&& self.ports_next_poll == other.ports_next_poll
        &&& views(self.ports@) == views(other.ports@)
        &&& self.ports_supported == other.ports_supported
        &&& self.port_forwards.wf()
        &&& self.port_forwards.map() == other.port_forwards.map()
    }

    /// Whether the port list was fetched from another machine than the active one.
    pub open spec fn ports_from_elsewhere(&self) -> bool {
        !(self.ports_endpoint matches Some(e) && e@ == self.active_endpoint_id@)
    }

    /// Polls the active machine's pane listeners while the expanded sidebar
    /// can show them. A list from another machine is dropped first: it must
    /// not be shown or acted on here. `pending` tells whether a port list
    /// request is in flight; `supported` whether the machine is online and
    /// can list ports. Machines without port support stay silent instead of
    /// raising a notice every poll.
    pub fn tick_ports(&mut self, now: u64, pending: bool, supported: bool, outcome: &mut ShellOutcome)
        requires
            old(self).port_forwards.wf(),
            now + PORT_POLL_INTERVAL_MS <= u64::MAX,
        ensures
            final(self).same_outside_ports(old(self)),
            final(self).port_forwards.wf(),
            final(self).port_forwards.map() == old(self).port_forwards.map(),
            final(self).ports_endpoint matches Some(e) && e@ == old(self).active_endpoint_id@,
            ({
                let switched = old(self).ports_from_elsewhere();
                let next0 = if switched { None } else { old(self).ports_next_poll };
                let ports0 = if switched { Seq::<PortInfoView>::empty() } else { views(old(self).ports@) };
                let cleared = switched && old(self).ports@.len() > 0;
                let waiting = pending || old(self).sidebar_collapsed || (next0 matches Some(n) && now < n);
                if waiting {
                    &&& final(self).ports_next_poll == next0
                    &&& final(self).ports_supported == old(self).ports_supported
                    &&& views(final(self).ports@) == ports0
                    &&& command_views(final(outcome).commands@) == command_views(old(outcome).commands@)
                    &&& final(outcome).repaint == (old(outcome).repaint || cleared)
                } else {
                    &&& final(self).ports_next_poll == Some((now + PORT_POLL_INTERVAL_MS) as u64)
                    &&& final(self).ports_supported == supported
                    &&& views(final(self).ports@) == (if supported { ports0 } else { Seq::empty() })
                    &&& command_views(final(outcome).commands@) == (if supported {
                        command_views(old(outcome).commands@).push(ShellCommandView::RequestPortList)
                    } else {
                        command_views(old(outcome).commands@)
                    })
                    &&& final(outcome).repaint == (old(outcome).repaint || cleared || supported != old(self).ports_supported
                        || (!supported && ports0.len() > 0))
                }
            }),
    {
        if !same_endpoint_opt(&self.ports_endpoint, &self.active_endpoint_id) {
            self.ports_endpoint = Some(self.active_endpoint_id.duplicate());
            self.ports_next_poll = None;
            if self.ports.len() > 0 {
                self.ports = Vec::new();
                outcome.repaint = true;
            }
        }
        proof {
            assert(views(self.ports@).len() == self.ports@.len());
        }
        let due = match self.ports_next_poll {
            Some(next) => !(now < next),
            None => true,
        };
        if pending || self.sidebar_collapsed || !due {
            return;
        }
        self.ports_next_poll = Some(now + PORT_POLL_INTERVAL_MS);
        if supported != self.ports_supported {
            self.ports_supported = supported;
            outcome.repaint = true;
        }
        if !supported {
            if self.ports.len() > 0 {
                self.ports = Vec::new();
                outcome.repaint = true;
            }
            assert(views(self.ports@) =~= Seq::<PortInfoView>::empty());
            return;
        }
        outcome.push(ShellCommand::RequestPortList);
    }

    /// Takes in a port list answer from the active machine (`None` when the
    /// request failed, which empties the list). Automatic tunnels whose pane
    /// listener went away on that machine are closed; manual ones were never
    /// tied to a pane and stay. Tells whether the list changed.
    pub fn complete_port_list(&mut self, result: Option<Vec<PortInfo>>) -> (changed: bool)
        requires
            old(self).port_forwards.wf(),
        ensures
            final(self).same_outside_ports(old(self)),
            opt_endpoint(final(self).ports_endpoint) == opt_endpoint(old(self).ports_endpoint),
            final(self).ports_next_poll == old(self).ports_next_poll,
            final(self).ports_supported == old(self).ports_supported,
            views(final(self).ports@) == (match result { Some(p) => views(p@), None => Seq::empty() }),
            final(self).port_forwards.wf(),
            final(self).port_forwards.map() == tunnels_after_list(old(self).port_forwards.map(), old(self).active_endpoint_id@, views(final(self).ports@)),
            changed == (views(final(self).ports@) != views(old(self).ports@)),
    {
        let ports = match result {
            Some(p) => p,
            None => Vec::new(),
        };
        let mut port_numbers: Vec<u16> = Vec::new();
        let mut i: usize = 0;
        while i < ports.len()
            invariant
                i <= ports.len(),
                port_numbers@.len() == i,
                forall|k: int| 0 <= k < i ==> #[trigger] port_numbers@[k] == ports@[k].port,
            decreases ports.len() - i,
        {
            port_numbers.push(ports[i].port);
            i = i + 1;
        }
        let ghost m0 = self.port_forwards.map();
        self.port_forwards.retain_listened(&self.active_endpoint_id, &port_numbers);
        proof {
            let pv = views(ports@);
            assert forall|p: u16| port_numbers@.contains(p) <==> (exists|i: int| 0 <= i < pv.len() && pv[i].port == p) by {
                if port_numbers@.contains(p) {
                    let k = choose|k: int| 0 <= k < port_numbers@.len() && port_numbers@[k] == p;
                    assert(pv[k] == ports@[k]@);
                }
                if exists|i: int| 0 <= i < pv.len() && pv[i].port == p {
                    let k = choose|k: int| 0 <= k < pv.len() && pv[k].port == p;
                    assert(pv[k] == ports@[k]@);
                    assert(port_numbers@[k] == p);
                }
            }
            let f1 = m0.dom().filter(|k: (Option<Seq<char>>, u16)| m0[k].1 || k.0 != self.active_endpoint_id@ || port_numbers@.contains(k.1));
            let f2 = m0.dom().filter(|k: (Option<Seq<char>>, u16)| m0[k].1 || k.0 != self.active_endpoint_id@
                || exists|i: int| 0 <= i < pv.len() && pv[i].port == k.1);
            assert(f1 =~= f2);
        }
        let changed = !ports_equal(&self.ports, &ports);
        self.ports = ports;
        changed
    }

    /// What `open_port(port, manual)` asks for: on the local machine the port
    /// opens directly; on an SSH machine an existing tunnel's local port
    /// opens, or a tunnel is started.
    pub open spec fn open_port_command(&self, port: u16, manual: bool) -> ShellCommandView {
        match self.active_endpoint_id@ {
            None => ShellCommandView::OpenWhenReady(port),
            Some(profile) => if self.port_forwards.map().dom().contains((self.active_endpoint_id@, port)) {
                ShellCommandView::OpenWhenReady(self.port_forwards.map()[(self.active_endpoint_id@, port)].0)
            } else {
                ShellCommandView::StartForward { endpoint: self.active_endpoint_id@, profile_id: profile, port, manual }
            },
        }
    }

    /// Opens `port` of the active machine in the browser, through a tunnel on
    /// an SSH machine. `manual` marks a tunnel asked for by hand.
    pub fn open_port(&mut self, port: u16, manual: bool, outcome: &mut ShellOutcome)
        requires
            old(self).port_forwards.wf(),
        ensures
            *final(self) == *old(self),
            final(outcome).repaint == old(outcome).repaint,
            command_views(final(outcome).commands@) == command_views(old(outcome).commands@).push(old(self).open_port_command(port, manual)),
    {
        match &self.active_endpoint_id {
            ClientEndpointId::Local => {
                outcome.push(ShellCommand::OpenWhenReady(port));
            },
            ClientEndpointId::Ssh(profile_id) => {
                match self.port_forwards.local_port(&self.active_endpoint_id, port) {
                    Some(local) => outcome.push(ShellCommand::OpenWhenReady(local)),
                    None => outcome.push(ShellCommand::StartForward {
                        endpoint: self.active_endpoint_id.duplicate(),
                        profile_id: profile_id.clone(),
                        port,
                        manual,
                    }),
                }
            },
        }
    }

    /// Takes in how starting the tunnel for `port` of `endpoint` went. A
    /// started tunnel is kept (replacing any for the same port) and, unless it
    /// was asked for by hand, opened in the browser: manual forwards are often
    /// databases or other non-HTTP services, so clicking the row opens them.
    pub fn complete_forward(&mut self, endpoint: ClientEndpointId, port: u16, manual: bool, started: ForwardStart<H>, outcome: &mut ShellOutcome)
        requires
            old(self).port_forwards.wf(),
        ensures
            final(self).same_outside_ports(old(self)),
            opt_endpoint(final(self).ports_endpoint) == opt_endpoint(old(self).ports_endpoint),
            final(self).ports_next_poll == old(self).ports_next_poll,
            final(self).ports_supported == old(self).ports_supported,
            views(final(self).ports@) == views(old(self).ports@),
            final(self).port_forwards.wf(),
            final(outcome).repaint == old(outcome).repaint,
            match started {
                ForwardStart::NoTarget => {
                    &&& final(self).port_forwards.map() == old(self).port_forwards.map()
                    &&& command_views(final(outcome).commands@) == command_views(old(outcome).commands@).push(
                        ShellCommandView::ShowError("could not find this machine's SSH target to forward the port"@))
                },
                ForwardStart::Failed(err) => {
                    &&& final(self).port_forwards.map() == old(self).port_forwards.map()
                    &&& command_views(final(outcome).commands@) == command_views(old(outcome).commands@).push(
                        ShellCommandView::ShowError("could not start ssh for port "@ + decimal(port as nat) + ": "@ + err@))
                },
                ForwardStart::Started { local_port, handle: _ } => {
                    &&& final(self).port_forwards.map() == old(self).port_forwards.map().insert((endpoint@, port), (local_port, manual))
                    &&& command_views(final(outcome).commands@) == (if manual {
                        command_views(old(outcome).commands@)
                    } else {
                        command_views(old(outcome).commands@).push(ShellCommandView::OpenWhenReady(local_port))
                    })
                },
            },
    {
        match started {
            ForwardStart::NoTarget => {
                outcome.push(ShellCommand::ShowError(String::from_str("could not find this machine's SSH target to forward the port")));
            },
            ForwardStart::Failed(err) => {
                let mut message = String::from_str("could not start ssh for port ");
                push_decimal(&mut message, port as u64);
                message.append(": ");
                message.append(err.as_str());
                outcome.push(ShellCommand::ShowError(message));
            },
            ForwardStart::Started { local_port, handle } => {
                if !manual {
                    outcome.push(ShellCommand::OpenWhenReady(local_port));
                }
                let _replaced = self.port_forwards.insert(endpoint, port, PortForward { local_port, manual, handle });
            },
        }
    }

    /// Acts on a click in the ports section: open a port, stop a pane
    /// listener (closing its tunnel and refreshing right away so it
    /// disappears without waiting a poll), close a manual tunnel, or ask for
    /// a port to forward. Always repaints.
    pub fn activate_port_row(&mut self, target: PortTarget, outcome: &mut ShellOutcome)
        requires
            old(self).port_forwards.wf(),
        ensures
            final(self).same_outside_ports(old(self)),
            opt_endpoint(final(self).ports_endpoint) == opt_endpoint(old(self).ports_endpoint),
            final(self).ports_supported == old(self).ports_supported,
            views(final(self).ports@) == views(old(self).ports@),
            final(self).port_forwards.wf(),
            final(outcome).repaint,
            match target {
                PortTarget::Open(port) => {
                    &&& final(self).ports_next_poll == old(self).ports_next_poll
                    &&& final(self).port_forwards.map() == old(self).port_forwards.map()
                    &&& command_views(final(outcome).commands@) == command_views(old(outcome).commands@).push(old(self).open_port_command(port, false))
                },
                PortTarget::Stop { port, pid } => {
                    &&& final(self).ports_next_poll is None
                    &&& final(self).port_forwards.map() == old(self).port_forwards.map().remove((old(self).active_endpoint_id@, port))
                    &&& command_views(final(outcome).commands@) == command_views(old(outcome).commands@).push(
                        ShellCommandView::StopPort(PortStopParams { port, pid }))
                },
                PortTarget::Close(port) => {
                    &&& final(self).ports_next_poll == old(self).ports_next_poll
                    &&& final(self).port_forwards.map() == old(self).port_forwards.map().remove((old(self).active_endpoint_id@, port))
                    &&& command_views(final(outcome).commands@) == command_views(old(outcome).commands@)
                },
                PortTarget::Forward => {
                    &&& final(self).ports_next_poll == old(self).ports_next_poll
                    &&& final(self).port_forwards.map() == old(self).port_forwards.map()
                    &&& command_views(final(outcome).commands@) == command_views(old(outcome).commands@).push(ShellCommandView::PromptForwardPort)
                },
            },
    {
        match target {
            PortTarget::Open(port) => self.open_port(port, false, outcome),
            PortTarget::Stop { port, pid } => {
                let _closed = self.port_forwards.remove(&self.active_endpoint_id, port);
                outcome.push(ShellCommand::StopPort(PortStopParams { port, pid }));
                self.ports_next_poll = None;
            },
            PortTarget::Close(port) => {
                let _closed = self.port_forwards.remove(&self.active_endpoint_id, port);
            },
            PortTarget::Forward => {
                outcome.push(ShellCommand::PromptForwardPort);
            },
        }
        outcome.repaint = true;
    }

    /// What forwarding the trimmed input `input` does: a port number
    /// above 0 opens a manual tunnel, anything else is reported.
    pub open spec fn forward_input_command(&self, input: Seq<char>) -> ShellCommandView {
        match spec_parse_u16(input) {
            Some(port) => if port > 0 {
                self.open_port_command(port, true)
            } else {
                ShellCommandView::ShowError("'"@ + input + "' is not a port number"@)
            },
            None => ShellCommandView::ShowError("'"@ + input + "' is not a port number"@),
        }
    }

    /// Forwards a port typed into the "forward port" prompt.
    pub fn forward_port_from_input(&mut self, input: &str, outcome: &mut ShellOutcome)
        requires
            old(self).port_forwards.wf(),
        ensures
            *final(self) == *old(self),
            final(outcome).repaint == old(outcome).repaint,
            command_views(final(outcome).commands@) == command_views(old(outcome).commands@).push(old(self).forward_input_command(trimmed(input@))),
    {
        let input = trim(input);
        let parsed = parse_u16(input);
        let valid = match parsed {
            Some(port) => port > 0,
            None => false,
        };
        if valid {
            self.open_port(parsed.unwrap(), true, outcome);
        } else {
            let mut message = String::from_str("'");
            message.append(input);
            message.append("' is not a port number");
            outcome.push(ShellCommand::ShowError(message));
        }
    }

    /// Reports a tunnel whose ssh process exited, with the reason ssh gave
    /// last, so that a failed forward is not silent, and drops it.
    pub fn forward_exited(&mut self, endpoint: &ClientEndpointId, port: u16, stderr: &str, outcome: &mut ShellOutcome)
        requires
            old(self).port_forwards.wf(),
        ensures
            final(self).same_outside_ports(old(self)),
            opt_endpoint(final(self).ports_endpoint) == opt_endpoint(old(self).ports_endpoint),
            final(self).ports_next_poll == old(self).ports_next_poll,
            final(self).ports_supported == old(self).ports_supported,
            views(final(self).ports@) == views(old(self).ports@),
            final(self).port_forwards.wf(),
            final(self).port_forwards.map() == old(self).port_forwards.map().remove((endpoint@, port)),
            final(outcome).repaint,
            command_views(final(outcome).commands@) == command_views(old(outcome).commands@).push(
                ShellCommandView::ShowError(forward_stopped_text(port, stop_reason(stderr@)))),
    {
        let _dropped = self.port_forwards.remove(endpoint, port);
        outcome.push(ShellCommand::ShowError(forward_stopped_message(port, stderr)));
        outcome.repaint = true;
    }

    /// Whether the repo list was fetched from another machine than the active one.
    pub open spec fn repos_from_elsewhere(&self) -> bool {
        !(self.repos_endpoint matches Some(e) && e@ == self.active_endpoint_id@)
    }

    /// Fetches the active machine's repos, so each machine lists its own
    /// folders. Another machine's paths are meaningless here: on a switch the
    /// list is dropped and the scroll reset. `pending` tells whether a repo
    /// list request is in flight; `supported` whether the machine is online
    /// and can list repos. Machines without repo support stay silent.
    pub fn tick_repos(&mut self, now: u64, pending: bool, supported: bool, outcome: &mut ShellOutcome)
        requires
            old(self).port_forwards.wf(),
            now + REPO_POLL_INTERVAL_MS <= u64::MAX,
        ensures
            final(self).same_outside_repos(old(self)),
            final(self).collapsed_repo_groups@ == old(self).collapsed_repo_groups@,
            final(self).repos_endpoint matches Some(e) && e@ == old(self).active_endpoint_id@,
            ({
                let switched = old(self).repos_from_elsewhere();
                let next0 = if switched { None } else { old(self).repos_next_poll };
                let repos0 = if switched { Seq::<RepoInfoView>::empty() } else { views(old(self).repos@) };
                let cleared = switched && old(self).repos@.len() > 0;
                let waiting = pending || old(self).sidebar_collapsed || (next0 matches Some(n) && now < n);
                &&& final(self).repo_scroll == (if switched { 0 } else { old(self).repo_scroll })
                &&& if waiting {
                    &&& final(self).repos_next_poll == next0
                    &&& views(final(self).repos@) == repos0
                    &&& command_views(final(outcome).commands@) == command_views(old(outcome).commands@)
                    &&& final(outcome).repaint == (old(outcome).repaint || cleared)
                } else {
                    &&& final(self).repos_next_poll == Some((now + REPO_POLL_INTERVAL_MS) as u64)
                    &&& views(final(self).repos@) == (if supported { repos0 } else { Seq::empty() })
                    &&& command_views(final(outcome).commands@) == (if supported {
                        command_views(old(outcome).commands@).push(ShellCommandView::RequestRepoList)
                    } else {
                        command_views(old(outcome).commands@)
                    })
                    &&& final(outcome).repaint == (old(outcome).repaint || cleared || (!supported && repos0.len() > 0))
                }
            }),
    {
        if !same_endpoint_opt(&self.repos_endpoint, &self.active_endpoint_id) {
            self.repos_endpoint = Some(self.active_endpoint_id.duplicate());
            self.repos_next_poll = None;
            self.repo_scroll = 0;
            if self.repos.len() > 0 {
                self.repos = Vec::new();
                outcome.repaint = true;
            }
        }
        proof {
            assert(views(self.repos@).len() == self.repos@.len());
        }
        let due = match self.repos_next_poll {
            Some(next) => !(now < next),
            None => true,
        };
        if pending || self.sidebar_collapsed || !due {
            return;
        }
        self.repos_next_poll = Some(now + REPO_POLL_INTERVAL_MS);
        if !supported {
            if self.repos.len() > 0 {
                self.repos = Vec::new();
                outcome.repaint = true;
            }
            assert(views(self.repos@) =~= Seq::<RepoInfoView>::empty());
            return;
        }
        outcome.push(ShellCommand::RequestRepoList);
    }

    /// Takes in a repo list answer (`None` when the request failed, which
    /// empties the list). Tells whether the list changed.
    pub fn complete_repo_list(&mut self, result: Option<Vec<RepoInfo>>) -> (changed: bool)
        requires
            old(self).port_forwards.wf(),
        ensures
            final(self).same_outside_repos(old(self)),
            opt_endpoint(final(self).repos_endpoint) == opt_endpoint(old(self).repos_endpoint),
            final(self).repos_next_poll == old(self).repos_next_poll,
            final(self).repo_scroll == old(self).repo_scroll,
            final(self).collapsed_repo_groups@ == old(self).collapsed_repo_groups@,
            views(final(self).repos@) == (match result { Some(r) => views(r@), None => Seq::empty() }),
            changed == (views(final(self).repos@) != views(old(self).repos@)),
    {
        let repos = match result {
            Some(r) => r,
            None => Vec::new(),
        };
        let changed = !repos_equal(&self.repos, &repos);
        self.repos = repos;
        changed
    }

    /// What a click on a repo row that is not a group toggle asks for: focus
    /// the open space labelled like the row's space, or create it in the
    /// row's folder. `None` when the row opens nothing.
    pub open spec fn repo_open_command(&self, spaces: Option<Seq<ShellWorkspaceView>>, target: RepoTargetView) -> Option<ShellCommandView> {
        match spec_space_for(views(self.repos@), target) {
            None => None,
            Some((label, path)) => {
                let existing = match spaces {
                    Some(ws) => match find_workspace_by_label(ws, label) {
                        Some(k) => Some(ws[k].workspace_id),
                        None => None,
                    },
                    None => None,
                };
                match existing {
                    Some(id) => Some(ShellCommandView::FocusWorkspace(id)),
                    None => Some(ShellCommandView::CreateWorkspace { cwd: path, label }),
                }
            },
        }
    }

    /// Acts on a click in the repos section: a group header's marker folds or
    /// unfolds the group; a repo, or the rest of a header, opens its folder
    /// as a space, focusing the space already open under that label.
    /// `spaces` are the spaces of the shell's current snapshot, if it has one.
    pub fn activate_repo_row(&mut self, target: RepoTarget, spaces: Option<&Vec<ShellWorkspace>>, outcome: &mut ShellOutcome)
        requires
            old(self).port_forwards.wf(),
        ensures
            final(self).same_outside_repos(old(self)),
            opt_endpoint(final(self).repos_endpoint) == opt_endpoint(old(self).repos_endpoint),
            final(self).repos_next_poll == old(self).repos_next_poll,
            final(self).repo_scroll == old(self).repo_scroll,
            views(final(self).repos@) == views(old(self).repos@),
            match target@ {
                RepoTargetView::Group(g) => {
                    &&& final(self).collapsed_repo_groups@ == (if old(self).collapsed_repo_groups@.contains(g) {
                        old(self).collapsed_repo_groups@.remove(g)
                    } else {
                        old(self).collapsed_repo_groups@.insert(g)
                    })
                    &&& command_views(final(outcome).commands@) == command_views(old(outcome).commands@)
                    &&& final(outcome).repaint
                },
                _ => {
                    let command = old(self).repo_open_command(
                        match spaces { Some(ws) => Some(workspace_views(ws@)), None => None },
                        target@,
                    );
                    &&& final(self).collapsed_repo_groups@ == old(self).collapsed_repo_groups@
                    &&& match command {
                        Some(c) => {
                            &&& command_views(final(outcome).commands@) == command_views(old(outcome).commands@).push(c)
                            &&& final(outcome).repaint
                        },
                        None => {
                            &&& command_views(final(outcome).commands@) == command_views(old(outcome).commands@)
                            &&& final(outcome).repaint == old(outcome).repaint
                        },
                    }
                },
            },
    {
        match target {
            RepoTarget::Group(group) => {
                self.collapsed_repo_groups.toggle(group);
            },
            target => {
                let found = space_for(&self.repos, &target);
                if found.is_none() {
                    return;
                }
                let (label, path) = found.unwrap();
                let existing: Option<String> = match spaces {
                    Some(ws) => match workspace_with_label(ws, &label) {
                        Some(k) => {
                            assert(workspace_views(ws@)[k as int] == ws@[k as int]@);
                            Some(ws[k].workspace_id.clone())
                        },
                        None => None,
                    },
                    None => None,
                };
                let command = match existing {
                    Some(workspace_id) => ShellCommand::FocusWorkspace(workspace_id),
                    None => ShellCommand::CreateWorkspace { cwd: path, label },
                };
                outcome.push(command);
            },
        }
        outcome.repaint = true;
    }
}


/// The tunnels kept when machine `e` reports listeners `ports`: manual
/// ones, those of other machines, and those whose remote port is listened on.
pub open spec fn tunnels_after_list(
    m: Map<(Option<Seq<char>>, u16), (u16, bool)>,
    e: Option<Seq<char>>,
    ports: Seq<PortInfoView>,
) -> Map<(Option<Seq<char>>, u16), (u16, bool)> {
    m.restrict(m.dom().filter(|k: (Option<Seq<char>>, u16)|
        m[k].1 || k.0 != e || exists|i: int| 0 <= i < ports.len() && ports[i].port == k.1))
}

/// Law of a port list update: manual tunnels and tunnels of other machines
/// always stay, an automatic tunnel of the machine stays exactly when its
/// remote port is still listened on, kept tunnels are unchanged, and no
/// tunnel is added.
pub proof fn lemma_tunnels_after_list(
    m: Map<(Option<Seq<char>>, u16), (u16, bool)>,
    e: Option<Seq<char>>,
    ports: Seq<PortInfoView>,
    k: (Option<Seq<char>>, u16),
)
    ensures
        tunnels_after_list(m, e, ports).dom().contains(k) <==> (m.dom().contains(k) && (m[k].1 || k.0 != e
            || exists|i: int| 0 <= i < ports.len() && ports[i].port == k.1)),
        tunnels_after_list(m, e, ports).dom().contains(k) ==> tunnels_after_list(m, e, ports)[k] == m[k],
{
}

/// How starting a tunnel went.
pub enum ForwardStart<H> {
    /// The machine's SSH profile has no target to connect to.
    NoTarget,
    /// No local port could be had or ssh could not be started, for this reason.
    Failed(String),
    /// The tunnel runs and arrives on `local_port`.
    Started { local_port: u16, handle: H },
}

/// The line ssh printed last, or a fixed text when it printed nothing.
pub open spec fn stop_reason(stderr: Seq<char>) -> Seq<char> {
    match last_line(stderr) {
        Some(line) => line,
        None => "ssh exited"@,
    }
}

/// The error shown when the tunnel for `port` stops for `reason`: the
/// port and the reason without surrounding whitespace.
pub open spec fn forward_stopped_text(port: u16, reason: Seq<char>) -> Seq<char> {
    "port "@ + decimal(port as nat) + " forward stopped: "@ + trimmed(reason)
}

/// The error shown when the tunnel for `port` stops after ssh wrote `stderr`.
pub fn forward_stopped_message(port: u16, stderr: &str) -> (m: String)
    ensures
        m@ == forward_stopped_text(port, stop_reason(stderr@)),
{
    let line = match last_line_of(stderr) {
        Some(line) => line,
        None => String::from_str("ssh exited"),
    };
    let mut m = String::from_str("port ");
    push_decimal(&mut m, port as u64);
    m.append(" forward stopped: ");
    m.append(trim(line.as_str()));
    m
}

/// The arguments of the ssh process that tunnels remote `remote_port` to
/// local `local_port` through `target`. `localhost` lets sshd reach dev
/// servers bound to either 127.0.0.1 or ::1.
pub open spec fn spec_ssh_forward_args(target: Seq<char>, local_port: u16, remote_port: u16) -> Seq<Seq<char>> {
    seq![
        "-N"@,
        "-o"@,
        "ExitOnForwardFailure=yes"@,
        "-o"@,
        "BatchMode=yes"@,
        "-L"@,
        "127.0.0.1:"@ + decimal(local_port as nat) + ":localhost:"@ + decimal(remote_port as nat),
        target,
    ]
}

/// The arguments of the ssh process that tunnels a port.
pub fn ssh_forward_args(target: &str, local_port: u16, remote_port: u16) -> (args: Vec<String>)
    ensures
        args@.map_values(|a: String| a@) == spec_ssh_forward_args(target@, local_port, remote_port),
{
    let mut spec = String::from_str("127.0.0.1:");
    push_decimal(&mut spec, local_port as u64);
    spec.append(":localhost:");
    push_decimal(&mut spec, remote_port as u64);
    let args = vec![
        String::from_str("-N"),
        String::from_str("-o"),
        String::from_str("ExitOnForwardFailure=yes"),
        String::from_str("-o"),
        String::from_str("BatchMode=yes"),
        String::from_str("-L"),
        spec,
        String::from_str(target),
    ];
    assert(args@.map_values(|a: String| a@) =~= spec_ssh_forward_args(target@, local_port, remote_port));
    args
}

/// The address the browser opens for a local port.
pub open spec fn spec_local_url(port: u16) -> Seq<char> {
    "http://localhost:"@ + decimal(port as nat)
}

/// The address the browser opens for a local port.
pub fn local_url(port: u16) -> (url: String)
    ensures
        url@ == spec_local_url(port),
{
    let mut url = String::from_str("http://localhost:");
    push_decimal(&mut url, port as u64);
    url
}

} // verus!
