//! The values the server reports about ports and repos, and what a client
//! sends to stop a port.

use vstd::prelude::*;

verus! {

/// A TCP port listened on by a process running inside a pane.
#[derive(Debug, Clone, PartialEq, Eq)]
pub struct PortInfo {
    pub port: u16,
    pub pid: u32,
    pub process: String,
    pub pane_id: String,
    pub workspace_id: String,
}

/// The fields of a `PortInfo`, with strings as character sequences.
pub struct PortInfoView {
    pub port: u16,
    pub pid: u32,
    pub process: Seq<char>,
    pub pane_id: Seq<char>,
    pub workspace_id: Seq<char>,
}

impl View for PortInfo {
    type V = PortInfoView;

    open spec fn view(&self) -> PortInfoView {
        PortInfoView {
            port: self.port,
            pid: self.pid,
            process: self.process@,
            pane_id: self.pane_id@,
            workspace_id: self.workspace_id@,
        }
    }
}

/// Names the listener to stop: the port and the process that owns it.
#[derive(Debug, Clone, Copy, PartialEq, Eq)]
pub struct PortStopParams {
    pub port: u16,
    pub pid: u32,
}

/// A git repository found under the server's configured repo roots.
#[derive(Debug, Clone, PartialEq, Eq)]
pub struct RepoInfo {
    pub name: String,
    pub path: String,
    /// Parent directory relative to its scan root; repos sharing it form one group.
    pub group: String,
    /// Folder name of the group, used as the label of a space opened on the whole group.
    pub group_label: String,
    pub group_path: String,
}

/// The fields of a `RepoInfo`, with strings as character sequences.
pub struct RepoInfoView {
    pub name: Seq<char>,
    pub path: Seq<char>,
    pub group: Seq<char>,
    pub group_label: Seq<char>,
    pub group_path: Seq<char>,
}

impl View for RepoInfo {
    type V = RepoInfoView;

    open spec fn view(&self) -> RepoInfoView {
        RepoInfoView {
            name: self.name@,
            path: self.path@,
            group: self.group@,
            group_label: self.group_label@,
            group_path: self.group_path@,
        }
    }
}

/// The views of a sequence of values, element by element.
pub open spec fn views<T: View>(s: Seq<T>) -> Seq<T::V> {
    s.map_values(|x: T| x@)
}

impl PortInfo {
    /// A copy with the same fields.
    pub fn duplicate(&self) -> (r: PortInfo)
        ensures
            r@ == self@,
    {
        PortInfo {
            port: self.port,
            pid: self.pid,
            process: self.process.clone(),
            pane_id: self.pane_id.clone(),
            workspace_id: self.workspace_id.clone(),
        }
    }

    /// Whether two port records hold the same fields.
    pub fn same_as(&self, other: &PortInfo) -> (r: bool)
        ensures
            r == (self@ == other@),
    {
        self.port == other.port && self.pid == other.pid && self.process == other.process
            && self.pane_id == other.pane_id && self.workspace_id == other.workspace_id
    }
}

impl RepoInfo {
    /// A copy with the same fields.
    pub fn duplicate(&self) -> (r: RepoInfo)
        ensures
            r@ == self@,
    {
        RepoInfo {
            name: self.name.clone(),
            path: self.path.clone(),
            group: self.group.clone(),
            group_label: self.group_label.clone(),
            group_path: self.group_path.clone(),
        }
    }

    /// Whether two repo records hold the same fields.
    pub fn same_as(&self, other: &RepoInfo) -> (r: bool)
        ensures
            r == (self@ == other@),
    {
        self.name == other.name && self.path == other.path && self.group == other.group
            && self.group_label == other.group_label && self.group_path == other.group_path
    }
}

/// Whether two lists of port records are equal, element by element.
pub fn ports_equal(a: &Vec<PortInfo>, b: &Vec<PortInfo>) -> (r: bool)
    ensures
        r == (views(a@) == views(b@)),
{
    if a.len() != b.len() {
        assert(views(a@).len() != views(b@).len());
        return false;
    }
    let mut i: usize = 0;
    while i < a.len()
        invariant
            a.len() == b.len(),
            i <= a.len(),
            forall|k: int| 0 <= k < i ==> a@[k]@ == b@[k]@,
        decreases a.len() - i,
    {
        if !a[i].same_as(&b[i]) {
            assert(views(a@)[i as int] != views(b@)[i as int]);
            return false;
        }
        i = i + 1;
    }
    assert(views(a@) =~= views(b@));
    true
}

/// Whether two lists of repo records are equal, element by element.
pub fn repos_equal(a: &Vec<RepoInfo>, b: &Vec<RepoInfo>) -> (r: bool)
    ensures
        r == (views(a@) == views(b@)),
{
    if a.len() != b.len() {
        assert(views(a@).len() != views(b@).len());
        return false;
    }
    let mut i: usize = 0;
    while i < a.len()
        invariant
            a.len() == b.len(),
            i <= a.len(),
            forall|k: int| 0 <= k < i ==> a@[k]@ == b@[k]@,
        decreases a.len() - i,
    {
        if !a[i].same_as(&b[i]) {
            assert(views(a@)[i as int] != views(b@)[i as int]);
            return false;
        }
        i = i + 1;
    }
    assert(views(a@) =~= views(b@));
    true
}

} // verus!
