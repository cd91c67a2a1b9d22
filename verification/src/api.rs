//! The server's answers to the port and repo requests of a client.

use vstd::prelude::*;

use crate::repo_scan::{dedup_by_path, is_stable_sort, scan};
use crate::schema::{views, PortInfo, PortInfoView, PortStopParams, RepoInfo, RepoInfoView};

verus! {

/// The running process of a pane and the workspace it belongs to.
#[derive(Debug)]
pub struct PaneRuntime {
    pub child_pid: Option<u32>,
    pub workspace_id: String,
}

/// One pane of the server's state, as the port listing reads it.
#[derive(Debug)]
pub struct PaneSlot {
    /// Present when the pane has a runtime.
    pub runtime: Option<PaneRuntime>,
    /// The pane's id as clients see it, when it has one.
    pub public_pane_id: Option<String>,
}

/// The server state the port handlers read: every pane of every tab of every
/// workspace, in that order.
#[derive(Debug)]
pub struct App {
    pub panes: Vec<PaneSlot>,
}

/// A pane process that can own listeners: its pid and where it runs.
#[derive(Debug)]
pub struct PaneOwner {
    pub pid: u32,
    pub pane_id: String,
    pub workspace_id: String,
}

/// A TCP listener reported by the platform, with the pane process it descends from.
#[derive(Debug)]
pub struct ListeningPort {
    pub port: u16,
    pub pid: u32,
    pub process: String,
    pub root_pid: u32,
}

/// The owner a pane contributes, if it has a runtime with a process and a public id.
pub open spec fn slot_owner(slot: PaneSlot) -> Option<(u32, Seq<char>, Seq<char>)> {
    match (slot.runtime, slot.public_pane_id) {
        (Some(rt), Some(id)) => match rt.child_pid {
            Some(pid) => Some((pid, id@, rt.workspace_id@)),
            None => None,
        },
        _ => None,
    }
}

/// The owners of all panes, in pane order.
pub open spec fn spec_owners(panes: Seq<PaneSlot>) -> Seq<(u32, Seq<char>, Seq<char>)>
    decreases panes.len(),
{
    if panes.len() == 0 {
        Seq::empty()
    } else {
        let rest = spec_owners(panes.drop_last());
        match slot_owner(panes.last()) {
            Some(o) => rest.push(o),
            None => rest,
        }
    }
}

/// The position of the first owner with process `pid`, if any.
pub open spec fn first_owner(owners: Seq<(u32, Seq<char>, Seq<char>)>, pid: u32) -> Option<int> {
    if exists|k: int| 0 <= k < owners.len() && owners[k].0 == pid {
        Some(choose|k: int| 0 <= k < owners.len() && owners[k].0 == pid && forall|j: int| 0 <= j < k ==> owners[j].0 != pid)
    } else {
        None
    }
}

/// The port records for listeners that descend from a pane process, in
/// listener order, each attributed to the first pane whose process is its root.
pub open spec fn spec_pane_ports(owners: Seq<(u32, Seq<char>, Seq<char>)>, listening: Seq<ListeningPort>) -> Seq<PortInfoView>
    decreases listening.len(),
{
    if listening.len() == 0 {
        Seq::empty()
    } else {
        let rest = spec_pane_ports(owners, listening.drop_last());
        let l = listening.last();
        match first_owner(owners, l.root_pid) {
            Some(k) => rest.push(PortInfoView {
                port: l.port,
                pid: l.pid,
                process: l.process@,
                pane_id: owners[k].1,
                workspace_id: owners[k].2,
            }),
            None => rest,
        }
    }
}

/// A request's outcome as the server reports it.
#[derive(Debug)]
pub enum ResponseResult {
    PortList { ports: Vec<PortInfo> },
    RepoList { repos: Vec<RepoInfo> },
    Acknowledged,
}

/// A refused request: a machine-readable code and a message.
#[derive(Debug)]
pub struct ResponseError {
    pub code: String,
    pub message: String,
}

/// The reply to the request with id `id`.
#[derive(Debug)]
pub struct Response {
    pub id: String,
    pub result: Result<ResponseResult, ResponseError>,
}

/// What the server does with a port stop request.
#[derive(Debug)]
pub struct PortStopReply {
    pub response: Response,
    /// The process to kill, when the request named a pane's listener.
    pub kill: Option<u32>,
}

impl App {
    /// The processes of all panes that have one, with their public pane and workspace ids.
    pub fn pane_owners(&self) -> (owners: Vec<PaneOwner>)
        ensures
            owners@.map_values(|o: PaneOwner| (o.pid, o.pane_id@, o.workspace_id@)) == spec_owners(self.panes@),
    {
        let mut owners: Vec<PaneOwner> = Vec::new();
        let mut i: usize = 0;
        while i < self.panes.len()
            invariant
                i <= self.panes.len(),
                owners@.map_values(|o: PaneOwner| (o.pid, o.pane_id@, o.workspace_id@)) == spec_owners(self.panes@.take(i as int)),
            decreases self.panes.len() - i,
        {
            let ghost before = owners@;
            proof {
                assert(self.panes@.take(i + 1).drop_last() =~= self.panes@.take(i as int));
            }
            let slot = &self.panes[i];
            match (&slot.runtime, &slot.public_pane_id) {
                (Some(rt), Some(id)) => match rt.child_pid {
                    Some(pid) => {
                        owners.push(PaneOwner { pid, pane_id: id.clone(), workspace_id: rt.workspace_id.clone() });
                        assert(owners@.map_values(|o: PaneOwner| (o.pid, o.pane_id@, o.workspace_id@)) =~=
                            before.map_values(|o: PaneOwner| (o.pid, o.pane_id@, o.workspace_id@)).push((pid, id@, rt.workspace_id@)));
                    },
                    None => {},
                },
                _ => {},
            }
            i = i + 1;
        }
        assert(self.panes@.take(i as int) =~= self.panes@);
        owners
    }

    /// The pane processes whose listeners the platform should report.
    pub fn root_pids(&self) -> (pids: Vec<u32>)
        ensures
            pids@ == spec_owners(self.panes@).map_values(|o: (u32, Seq<char>, Seq<char>)| o.0),
    {
        let owners = self.pane_owners();
        let ghost ov = owners@.map_values(|o: PaneOwner| (o.pid, o.pane_id@, o.workspace_id@));
        let mut pids: Vec<u32> = Vec::new();
        let mut i: usize = 0;
        while i < owners.len()
            invariant
                i <= owners.len(),
                ov == owners@.map_values(|o: PaneOwner| (o.pid, o.pane_id@, o.workspace_id@)),
                pids@ == ov.take(i as int).map_values(|o: (u32, Seq<char>, Seq<char>)| o.0),
            decreases owners.len() - i,
        {
            pids.push(owners[i].pid);
            i = i + 1;
            assert(pids@ =~= ov.take(i as int).map_values(|o: (u32, Seq<char>, Seq<char>)| o.0));
        }
        assert(ov.take(i as int) =~= ov);
        pids
    }

    /// The listeners owned by pane processes, as port records.
    pub fn pane_ports(&self, listening: &Vec<ListeningPort>) -> (ports: Vec<PortInfo>)
        ensures
            views(ports@) == spec_pane_ports(spec_owners(self.panes@), listening@),
    {
        let owners = self.pane_owners();
        let ghost ov = owners@.map_values(|o: PaneOwner| (o.pid, o.pane_id@, o.workspace_id@));
        let mut ports: Vec<PortInfo> = Vec::new();
        let mut i: usize = 0;
        while i < listening.len()
            invariant
                i <= listening.len(),
                ov == owners@.map_values(|o: PaneOwner| (o.pid, o.pane_id@, o.workspace_id@)),
                ov == spec_owners(self.panes@),
                views(ports@) == spec_pane_ports(ov, listening@.take(i as int)),
            decreases listening.len() - i,
        {
            proof {
                assert(listening@.take(i + 1).drop_last() =~= listening@.take(i as int));
            }
            let l = &listening[i];
            let mut j: usize = 0;
            while j < owners.len() && owners[j].pid != l.root_pid
                invariant
                    j <= owners.len(),
                    ov == owners@.map_values(|o: PaneOwner| (o.pid, o.pane_id@, o.workspace_id@)),
                    forall|k: int| 0 <= k < j ==> ov[k].0 != l.root_pid,
                decreases owners.len() - j,
            {
                j = j + 1;
            }
            let ghost before = views(ports@);
            if j < owners.len() {
                proof {
                    assert(ov[j as int].0 == l.root_pid);
                    let k = first_owner(ov, l.root_pid)->0;
                    assert(k == j) by {
                        if k < j {
                        } else if k > j {
                            assert(ov[j as int].0 == l.root_pid);
                        }
                    }
                }
                ports.push(PortInfo {
                    port: l.port,
                    pid: l.pid,
                    process: l.process.clone(),
                    pane_id: owners[j].pane_id.clone(),
                    workspace_id: owners[j].workspace_id.clone(),
                });
                assert(views(ports@) =~= before.push(ports@.last()@));
            } else {
                assert(first_owner(ov, l.root_pid) is None);
            }
            i = i + 1;
        }
        assert(listening@.take(i as int) =~= listening@);
        ports
    }

    /// The reply to a port list request: the listeners of pane processes.
    pub fn handle_port_list(&self, id: String, listening: &Vec<ListeningPort>) -> (response: Response)
        ensures
            response.id@ == id@,
            response.result matches Ok(ResponseResult::PortList { ports })
                && views(ports@) == spec_pane_ports(spec_owners(self.panes@), listening@),
    {
        Response { id, result: Ok(ResponseResult::PortList { ports: self.pane_ports(listening) }) }
    }

    /// The reply to a port stop request. Only a process that currently owns
    /// the port inside a pane may be stopped, so this cannot kill arbitrary
    /// host processes.
    pub fn handle_port_stop(&self, id: String, params: PortStopParams, listening: &Vec<ListeningPort>) -> (reply: PortStopReply)
        ensures
            reply.response.id@ == id@,
            ({
                let ports = spec_pane_ports(spec_owners(self.panes@), listening@);
                if exists|k: int| 0 <= k < ports.len() && ports[k].port == params.port && ports[k].pid == params.pid {
                    &&& reply.kill == Some(params.pid)
                    &&& reply.response.result matches Ok(ResponseResult::Acknowledged)
                } else {
                    &&& reply.kill is None
                    &&& reply.response.result matches Err(e)
                    &&& e.code@ == "port_not_found"@
                    &&& e.message@ == "no pane process listens on that port"@
                }
            }),
    {
        let ports = self.pane_ports(listening);
        let mut k: usize = 0;
        while k < ports.len() && !(ports[k].port == params.port && ports[k].pid == params.pid)
            invariant
                k <= ports.len(),
                forall|j: int| 0 <= j < k ==> !(ports@[j].port == params.port && ports@[j].pid == params.pid),
            decreases ports.len() - k,
        {
            k = k + 1;
        }
        let ghost pv = views(ports@);
        if k == ports.len() {
            assert(!exists|j: int| 0 <= j < pv.len() && pv[j].port == params.port && pv[j].pid == params.pid) by {
                assert forall|j: int| 0 <= j < pv.len() implies !(pv[j].port == params.port && pv[j].pid == params.pid) by {
                    assert(pv[j] == ports@[j]@);
                }
            }
            PortStopReply {
                response: Response {
                    id,
                    result: Err(ResponseError {
                        code: String::from_str("port_not_found"),
                        message: String::from_str("no pane process listens on that port"),
                    }),
                },
                kill: None,
            }
        } else {
            assert(pv[k as int] == ports@[k as int]@);
            PortStopReply { response: Response { id, result: Ok(ResponseResult::Acknowledged) }, kill: Some(params.pid) }
        }
    }

    /// The reply to a repo list request: the repos found under the roots,
    /// sorted by group then name and without repeated paths.
    pub fn handle_repo_list(&self, id: String, found: Vec<RepoInfo>) -> (response: Response)
        ensures
            response.id@ == id@,
            response.result matches Ok(ResponseResult::RepoList { repos })
                && exists|sorted: Seq<RepoInfoView>| is_stable_sort(sorted, views(found@))
                    && views(repos@) == dedup_by_path(sorted),
    {
        Response { id, result: Ok(ResponseResult::RepoList { repos: scan(found) }) }
    }
}

} // verus!
