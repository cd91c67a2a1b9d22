//! The repos section of the client sidebar: its rows, what a row opens, and what it draws.

use vstd::prelude::*;

use crate::layout::{
    find_workspace_by_label, min, min_u16, op_views, push_section_header, sat_add, sat_sub, saturating_add,
    saturating_sub, section_header, workspace_views, workspace_with_label, DrawOp, DrawOpView, Rect,
    ShellWorkspace, ShellWorkspaceView, Tone,
};
use crate::schema::{views, RepoInfo, RepoInfoView};
use crate::text::str_eq;

verus! {

/// What a row of the repos section stands for.
#[derive(Debug, Clone, PartialEq, Eq)]
pub enum RepoTarget {
    /// Toggles the group's collapsed state.
    Group(String),
    /// Opens the group's shared parent folder as one space.
    OpenGroup(String),
    Repo(usize),
}

/// A `RepoTarget` with its group as characters.
pub enum RepoTargetView {
    Group(Seq<char>),
    OpenGroup(Seq<char>),
    Repo(usize),
}

impl View for RepoTarget {
    type V = RepoTargetView;

    open spec fn view(&self) -> RepoTargetView {
        match self {
            RepoTarget::Group(g) => RepoTargetView::Group(g@),
            RepoTarget::OpenGroup(g) => RepoTargetView::OpenGroup(g@),
            RepoTarget::Repo(i) => RepoTargetView::Repo(*i),
        }
    }
}

impl RepoTarget {
    /// A copy standing for the same row.
    pub fn duplicate(&self) -> (r: RepoTarget)
        ensures
            r@ == self@,
    {
        match self {
            RepoTarget::Group(g) => RepoTarget::Group(g.clone()),
            RepoTarget::OpenGroup(g) => RepoTarget::OpenGroup(g.clone()),
            RepoTarget::Repo(i) => RepoTarget::Repo(*i),
        }
    }
}

/// The groups whose repos are hidden.
#[derive(Debug)]
pub struct CollapsedGroups {
    groups: Vec<String>,
}

impl View for CollapsedGroups {
    type V = Set<Seq<char>>;

    closed spec fn view(&self) -> Set<Seq<char>> {
        self.groups@.map_values(|g: String| g@).to_set()
    }
}

impl CollapsedGroups {
    /// No group collapsed.
    pub fn new() -> (c: CollapsedGroups)
        ensures
            c@ == Set::<Seq<char>>::empty(),
    {
        let c = CollapsedGroups { groups: Vec::new() };
        assert(c@ =~= Set::<Seq<char>>::empty());
        c
    }

    fn position(&self, group: &str) -> (r: Option<usize>)
        ensures
            match r {
                Some(i) => i < self.groups.len() && self.groups@[i as int]@ == group@,
                None => !self@.contains(group@),
            },
    {
        let mut i: usize = 0;
        while i < self.groups.len()
            invariant
                i <= self.groups.len(),
                forall|j: int| 0 <= j < i ==> self.groups@[j]@ != group@,
            decreases self.groups.len() - i,
        {
            if str_eq(self.groups[i].as_str(), group) {
                return Some(i);
            }
            i = i + 1;
        }
        proof {
            let names = self.groups@.map_values(|g: String| g@);
            if self@.contains(group@) {
                let j = choose|j: int| 0 <= j < names.len() && #[trigger] names[j] == group@;
                assert(names[j] == self.groups@[j]@);
            }
        }
        None
    }

    /// Whether `group` is collapsed.
    pub fn contains(&self, group: &str) -> (r: bool)
        ensures
            r == self@.contains(group@),
    {
        match self.position(group) {
            Some(i) => {
                assert(self.groups@.map_values(|g: String| g@)[i as int] == group@);
                true
            },
            None => false,
        }
    }

    /// Collapses `group`.
    pub fn insert(&mut self, group: String)
        ensures
            final(self)@ == old(self)@.insert(group@),
    {
        let ghost g = group@;
        let ghost before = self.groups@.map_values(|x: String| x@);
        self.groups.push(group);
        proof {
            let after = self.groups@.map_values(|x: String| x@);
            assert(after =~= before.push(g));
            assert(after.to_set() =~= before.to_set().insert(g)) by {
                assert forall|x| after.to_set().contains(x) <==> before.to_set().insert(g).contains(x) by {
                    if after.to_set().contains(x) {
                        let j = choose|j: int| 0 <= j < after.len() && after[j] == x;
                        if j < before.len() {
                            assert(before[j] == x);
                        }
                    }
                    if before.to_set().contains(x) {
                        let j = choose|j: int| 0 <= j < before.len() && before[j] == x;
                        assert(after[j] == x);
                    }
                    if x == g {
                        assert(after[before.len() as int] == g);
                    }
                }
            }
        }
    }

    /// Expands `group`; tells whether it was collapsed.
    pub fn remove(&mut self, group: &str) -> (was: bool)
        ensures
            was == old(self)@.contains(group@),
            final(self)@ == old(self)@.remove(group@),
    {
        self.remove_all(group)
    }

    fn remove_all(&mut self, group: &str) -> (was: bool)
        ensures
            was == old(self)@.contains(group@),
            final(self)@ == old(self)@.remove(group@),
        decreases old(self).groups@.len(),
    {
        match self.position(group) {
            None => {
                assert(self@ =~= self@.remove(group@));
                false
            },
            Some(i) => {
                let ghost before = self.groups@.map_values(|x: String| x@);
                assert(before[i as int] == group@);
                self.groups.remove(i);
                let ghost mid = self.groups@.map_values(|x: String| x@);
                proof {
                    assert(mid =~= before.remove(i as int));
                    assert forall|x| mid.to_set().contains(x) && x != group@ <==> before.to_set().remove(group@).contains(x) by {
                        if mid.to_set().contains(x) {
                            let j = choose|j: int| 0 <= j < mid.len() && mid[j] == x;
                            let jj = if j < i { j } else { j + 1 };
                            assert(before[jj] == x);
                        }
                        if before.to_set().contains(x) && x != group@ {
                            let j = choose|j: int| 0 <= j < before.len() && before[j] == x;
                            assert(j != i);
                            let jj = if j < i { j } else { j - 1 };
                            assert(mid[jj] == x);
                        }
                    }
                }
                // A group is listed once when inserted through `toggle`, but
                // remove any further copies too.
                let _ = self.remove_all(group);
                assert(self@ =~= old(self)@.remove(group@));
                true
            },
        }
    }

    /// Collapses `group` if it is expanded, and expands it if it is collapsed.
    pub fn toggle(&mut self, group: String)
        ensures
            final(self)@ == (if old(self)@.contains(group@) {
                old(self)@.remove(group@)
            } else {
                old(self)@.insert(group@)
            }),
    {
        if !self.remove(group.as_str()) {
            self.insert(group);
        }
    }
}

/// The position of the first repo of group `g`, if any.
pub open spec fn find_repo_in_group(repos: Seq<RepoInfoView>, g: Seq<char>) -> Option<int> {
    if exists|k: int| 0 <= k < repos.len() && repos[k].group == g {
        Some(choose|k: int| 0 <= k < repos.len() && repos[k].group == g && forall|j: int| 0 <= j < k ==> repos[j].group != g)
    } else {
        None
    }
}

fn repo_in_group(repos: &Vec<RepoInfo>, group: &str) -> (r: Option<usize>)
    ensures
        match r {
            Some(k) => k < repos.len() && find_repo_in_group(views(repos@), group@) == Some(k as int),
            None => find_repo_in_group(views(repos@), group@) is None,
        },
{
    let ghost rv = views(repos@);
    let mut k: usize = 0;
    while k < repos.len()
        invariant
            rv == views(repos@),
            k <= repos.len(),
            forall|j: int| 0 <= j < k ==> rv[j].group != group@,
        decreases repos.len() - k,
    {
        if str_eq(repos[k].group.as_str(), group) {
            assert(rv[k as int].group == group@);
            let ghost f = find_repo_in_group(rv, group@)->0;
            assert(f == k as int) by {
                if f > k as int {
                    assert(rv[k as int].group == group@);
                }
            }
            return Some(k);
        }
        k = k + 1;
    }
    None
}

/// The text of a group header: the immediate parent folder's own name
/// (`group_label` of any repo in the group), or the group itself when no repo has it.
pub open spec fn spec_group_display_label(repos: Seq<RepoInfoView>, group: Seq<char>) -> Seq<char> {
    match find_repo_in_group(repos, group) {
        Some(k) => repos[k].group_label,
        None => group,
    }
}

/// Text shown for a group header. `group` is the full path relative to the
/// root (e.g. "Multiplex/KMS" for repos two levels deep), which reads like a
/// breadcrumb instead of a folder name; every header shows just the
/// immediate parent folder's own name, looked up from a repo in that group.
pub fn group_display_label<'a>(repos: &'a Vec<RepoInfo>, group: &'a str) -> (label: &'a str)
    ensures
        label@ == spec_group_display_label(views(repos@), group@),
{
    match repo_in_group(repos, group) {
        Some(k) => {
            assert(views(repos@)[k as int] == repos@[k as int]@);
            repos[k].group_label.as_str()
        },
        None => group,
    }
}

/// The rows for the first `n` repos: a header whenever the group changes
/// from the repo before, then the repo unless its group is collapsed.
pub open spec fn rows_upto(repos: Seq<RepoInfoView>, collapsed: Set<Seq<char>>, n: int) -> Seq<RepoTargetView>
    decreases n,
{
    if n <= 0 {
        Seq::empty()
    } else {
        let i = n - 1;
        let with_header = if i == 0 || repos[i - 1].group != repos[i].group {
            rows_upto(repos, collapsed, i).push(RepoTargetView::Group(repos[i].group))
        } else {
            rows_upto(repos, collapsed, i)
        };
        if !collapsed.contains(repos[i].group) {
            with_header.push(RepoTargetView::Repo(i as usize))
        } else {
            with_header
        }
    }
}

/// Flattened rows: one header per run of repos of a group, followed by its
/// repos unless the group is collapsed.
pub open spec fn spec_rows(repos: Seq<RepoInfoView>, collapsed: Set<Seq<char>>) -> Seq<RepoTargetView> {
    rows_upto(repos, collapsed, repos.len() as int)
}

/// The views of a sequence of row targets.
pub open spec fn target_views(s: Seq<RepoTarget>) -> Seq<RepoTargetView> {
    s.map_values(|t: RepoTarget| t@)
}

/// Flattened rows: one header per group followed by its repos unless collapsed.
pub fn rows(repos: &Vec<RepoInfo>, collapsed: &CollapsedGroups) -> (rows: Vec<RepoTarget>)
    ensures
        target_views(rows@) == spec_rows(views(repos@), collapsed@),
{
    let ghost rv = views(repos@);
    let mut rows: Vec<RepoTarget> = Vec::new();
    let mut index: usize = 0;
    while index < repos.len()
        invariant
            rv == views(repos@),
            index <= repos.len(),
            target_views(rows@) == rows_upto(rv, collapsed@, index as int),
        decreases repos.len() - index,
    {
        let repo = &repos[index];
        assert(rv[index as int] == repo@);
        if index == 0 || !(repos[index - 1].group == repo.group) {
            assert(index > 0 ==> rv[index - 1] == repos@[index - 1]@);
            let ghost before = target_views(rows@);
            rows.push(RepoTarget::Group(repo.group.clone()));
            assert(target_views(rows@) =~= before.push(RepoTargetView::Group(rv[index as int].group)));
        } else {
            assert(rv[index - 1] == repos@[index - 1]@);
        }
        if !collapsed.contains(repo.group.as_str()) {
            let ghost before = target_views(rows@);
            rows.push(RepoTarget::Repo(index));
            assert(target_views(rows@) =~= before.push(RepoTargetView::Repo(index)));
        }
        index = index + 1;
    }
    rows
}

/// The space label and folder a row opens: the repo itself, or a group's
/// shared parent folder. Paths come from the machine that owns the repos, so
/// they are passed through untouched.
pub open spec fn spec_space_for(repos: Seq<RepoInfoView>, target: RepoTargetView) -> Option<(Seq<char>, Seq<char>)> {
    match target {
        RepoTargetView::Repo(i) => if i < repos.len() {
            Some((repos[i as int].name, repos[i as int].path))
        } else {
            None
        },
        RepoTargetView::Group(g) | RepoTargetView::OpenGroup(g) => match find_repo_in_group(repos, g) {
            Some(k) => Some((repos[k].group_label, repos[k].group_path)),
            None => None,
        },
    }
}

/// Space label and cwd a row opens.
pub fn space_for(repos: &Vec<RepoInfo>, target: &RepoTarget) -> (r: Option<(String, String)>)
    ensures
        match r {
            Some((label, path)) => spec_space_for(views(repos@), target@) == Some((label@, path@)),
            None => spec_space_for(views(repos@), target@) is None,
        },
{
    match target {
        RepoTarget::Repo(index) => {
            if *index < repos.len() {
                let repo = &repos[*index];
                assert(views(repos@)[*index as int] == repo@);
                Some((repo.name.clone(), repo.path.clone()))
            } else {
                None
            }
        },
        RepoTarget::Group(group) | RepoTarget::OpenGroup(group) => match repo_in_group(repos, group.as_str()) {
            Some(k) => {
                let repo = &repos[k];
                assert(views(repos@)[k as int] == repo@);
                Some((repo.group_label.clone(), repo.group_path.clone()))
            },
            None => None,
        },
    }
}


proof fn lemma_rows_upto_members(repos: Seq<RepoInfoView>, collapsed: Set<Seq<char>>, n: int)
    requires
        0 <= n <= repos.len(),
        repos.len() <= usize::MAX,
    ensures
        forall|i: int| 0 <= i < n ==> (rows_upto(repos, collapsed, n).contains(RepoTargetView::Repo(i as usize))
            <==> !collapsed.contains(#[trigger] repos[i].group)),
        forall|k: int| 0 <= k < rows_upto(repos, collapsed, n).len() ==> (#[trigger] rows_upto(repos, collapsed, n)[k] matches RepoTargetView::Repo(i) ==> i < n),
        forall|g: Seq<char>| rows_upto(repos, collapsed, n).contains(RepoTargetView::Group(g)) <==> exists|i: int| 0 <= i < n && #[trigger] repos[i].group == g,
        forall|k: int| 0 <= k < rows_upto(repos, collapsed, n).len() ==> !(#[trigger] rows_upto(repos, collapsed, n)[k] is OpenGroup),
    decreases n,
{
    if n > 0 {
        lemma_rows_upto_members(repos, collapsed, n - 1);
        let prev = rows_upto(repos, collapsed, n - 1);
        let cur = rows_upto(repos, collapsed, n);
        let i = n - 1;
        let header = i == 0 || repos[i - 1].group != repos[i].group;
        let mid = if header { prev.push(RepoTargetView::Group(repos[i].group)) } else { prev };
        assert(cur == (if !collapsed.contains(repos[i].group) { mid.push(RepoTargetView::Repo(i as usize)) } else { mid }));
        assert forall|k: int| 0 <= k < cur.len() implies (#[trigger] cur[k] matches RepoTargetView::Repo(j) ==> j < n) && !(cur[k] is OpenGroup) by {
            if k < prev.len() {
                assert(cur[k] == prev[k]);
            }
        }
        assert forall|j: int| 0 <= j < n implies (cur.contains(RepoTargetView::Repo(j as usize)) <==> !collapsed.contains(#[trigger] repos[j].group)) by {
            if j < i {
                if cur.contains(RepoTargetView::Repo(j as usize)) {
                    let k = choose|k: int| 0 <= k < cur.len() && cur[k] == RepoTargetView::Repo(j as usize);
                    if k >= prev.len() {
                        assert(cur[k] is Group || cur[k] == RepoTargetView::Repo(i as usize));
                    } else {
                        assert(prev[k] == cur[k]);
                    }
                }
                if prev.contains(RepoTargetView::Repo(j as usize)) {
                    let k = choose|k: int| 0 <= k < prev.len() && prev[k] == RepoTargetView::Repo(j as usize);
                    assert(cur[k] == prev[k]);
                }
            } else {
                if !collapsed.contains(repos[i].group) {
                    assert(cur[cur.len() - 1] == RepoTargetView::Repo(i as usize));
                } else if cur.contains(RepoTargetView::Repo(i as usize)) {
                    let k = choose|k: int| 0 <= k < cur.len() && cur[k] == RepoTargetView::Repo(i as usize);
                    if k < prev.len() {
                        assert(prev[k] == cur[k]);
                    }
                }
            }
        }
        assert forall|g: Seq<char>| cur.contains(RepoTargetView::Group(g)) <==> exists|j: int| 0 <= j < n && #[trigger] repos[j].group == g by {
            if cur.contains(RepoTargetView::Group(g)) {
                let k = choose|k: int| 0 <= k < cur.len() && cur[k] == RepoTargetView::Group(g);
                if k < prev.len() {
                    assert(prev[k] == cur[k]);
                    assert(prev.contains(RepoTargetView::Group(g)));
                    let j = choose|j: int| 0 <= j < n - 1 && #[trigger] repos[j].group == g;
                } else {
                    assert(repos[i].group == g);
                }
            }
            if exists|j: int| 0 <= j < n && #[trigger] repos[j].group == g {
                let j = choose|j: int| 0 <= j < n && #[trigger] repos[j].group == g;
                if exists|jj: int| 0 <= jj < n - 1 && #[trigger] repos[jj].group == g {
                    assert(prev.contains(RepoTargetView::Group(g)));
                    let k = choose|k: int| 0 <= k < prev.len() && prev[k] == RepoTargetView::Group(g);
                    assert(cur[k] == prev[k]);
                } else {
                    assert(j == i);
                    if !header {
                        assert(repos[i - 1].group == g);
                    }
                    assert(mid[prev.len() as int] == RepoTargetView::Group(g));
                    assert(cur[prev.len() as int] == RepoTargetView::Group(g));
                }
            }
        }
    }
}

/// Law of the flattened rows: a repo has a row exactly when its group is
/// not collapsed, every group with a repo has a header and no other header
/// appears, and no row is a folder-opening target.
pub proof fn lemma_rows_show_uncollapsed_repos(repos: Seq<RepoInfoView>, collapsed: Set<Seq<char>>)
    requires
        repos.len() <= usize::MAX,
    ensures
        forall|i: int| 0 <= i < repos.len() ==> (spec_rows(repos, collapsed).contains(RepoTargetView::Repo(i as usize))
            <==> !collapsed.contains(#[trigger] repos[i].group)),
        forall|k: int| 0 <= k < spec_rows(repos, collapsed).len() ==> (#[trigger] spec_rows(repos, collapsed)[k] matches RepoTargetView::Repo(i) ==> i < repos.len()),
        forall|g: Seq<char>| spec_rows(repos, collapsed).contains(RepoTargetView::Group(g)) <==> exists|i: int| 0 <= i < repos.len() && #[trigger] repos[i].group == g,
{
    lemma_rows_upto_members(repos, collapsed, repos.len() as int);
}

/// The number of group headers among `rows`.
pub open spec fn header_count(rows: Seq<RepoTargetView>) -> nat
    decreases rows.len(),
{
    if rows.len() == 0 {
        0
    } else {
        header_count(rows.drop_last()) + if rows.last() is Group { 1nat } else { 0nat }
    }
}

/// The number of runs of consecutive repos sharing a group.
pub open spec fn run_count(repos: Seq<RepoInfoView>) -> nat
    decreases repos.len(),
{
    if repos.len() == 0 {
        0
    } else {
        run_count(repos.drop_last()) + if repos.len() == 1 || repos[repos.len() - 2].group != repos.last().group {
            1nat
        } else {
            0nat
        }
    }
}

proof fn lemma_header_count_push(rows: Seq<RepoTargetView>, x: RepoTargetView)
    ensures
        header_count(rows.push(x)) == header_count(rows) + if x is Group { 1nat } else { 0nat },
{
    assert(rows.push(x).drop_last() =~= rows);
}

proof fn lemma_header_count_upto(repos: Seq<RepoInfoView>, collapsed: Set<Seq<char>>, n: int)
    requires
        0 <= n <= repos.len(),
    ensures
        header_count(rows_upto(repos, collapsed, n)) == run_count(repos.take(n)),
    decreases n,
{
    if n == 0 {
        assert(repos.take(0).len() == 0);
    } else {
        lemma_header_count_upto(repos, collapsed, n - 1);
        let i = n - 1;
        let prev = rows_upto(repos, collapsed, i);
        let header = i == 0 || repos[i - 1].group != repos[i].group;
        let mid = if header { prev.push(RepoTargetView::Group(repos[i].group)) } else { prev };
        lemma_header_count_push(prev, RepoTargetView::Group(repos[i].group));
        lemma_header_count_push(mid, RepoTargetView::Repo(i as usize));
        let t = repos.take(n);
        assert(t.drop_last() =~= repos.take(i));
        assert(t.last() == repos[i]);
        if n >= 2 {
            assert(t[t.len() - 2] == repos[i - 1]);
        }
    }
}

/// Law of the flattened rows: there is one group header per run of
/// consecutive repos of a group, however many groups are collapsed; so the
/// headers are the same whatever is collapsed, and collapsing only hides repos.
pub proof fn lemma_one_header_per_run(repos: Seq<RepoInfoView>, collapsed: Set<Seq<char>>, other: Set<Seq<char>>)
    ensures
        header_count(spec_rows(repos, collapsed)) == run_count(repos),
        header_count(spec_rows(repos, collapsed)) == header_count(spec_rows(repos, other)),
{
    lemma_header_count_upto(repos, collapsed, repos.len() as int);
    lemma_header_count_upto(repos, other, repos.len() as int);
    assert(repos.take(repos.len() as int) =~= repos);
}

/// Law of the space a row opens: a repo row opens the repo's own folder
/// under its name; a group header (either part of it) opens the folder of
/// the group's first repo, labelled with that folder's own name
/// (`group_label`), and opens nothing when no repo has the group.
pub proof fn lemma_space_for_rows(repos: Seq<RepoInfoView>, g: Seq<char>)
    ensures
        forall|i: usize| (i as int) < repos.len() ==> spec_space_for(repos, RepoTargetView::Repo(i)) == Some(
            (#[trigger] repos[i as int].name, repos[i as int].path),
        ),
        forall|i: usize| (i as int) >= repos.len() ==> #[trigger] spec_space_for(repos, RepoTargetView::Repo(i)) is None,
        spec_space_for(repos, RepoTargetView::Group(g)) == spec_space_for(repos, RepoTargetView::OpenGroup(g)),
        spec_space_for(repos, RepoTargetView::Group(g)) is Some <==> exists|k: int| 0 <= k < repos.len() && #[trigger] repos[k].group == g,
        forall|k: int|
            0 <= k < repos.len() && #[trigger] repos[k].group == g && (forall|j: int| 0 <= j < k ==> repos[j].group != g)
                ==> spec_space_for(repos, RepoTargetView::Group(g)) == Some((repos[k].group_label, repos[k].group_path)),
{
    assert forall|k: int|
        0 <= k < repos.len() && #[trigger] repos[k].group == g && (forall|j: int| 0 <= j < k ==> repos[j].group != g)
            implies spec_space_for(repos, RepoTargetView::Group(g)) == Some((repos[k].group_label, repos[k].group_path)) by {
        let f = find_repo_in_group(repos, g)->0;
        assert(f == k) by {
            if f < k {
                assert(repos[f].group != g);
            } else if f > k {
                assert(repos[k].group == g);
            }
        }
    }
}

/// Law of the row texts: a group header shows its fold marker, then the own
/// name of the folder of the group's first repo (`group_label`), or the group
/// itself when no repo has it; a repo row shows the repo's name, indented.
pub proof fn lemma_row_texts(repos: Seq<RepoInfoView>, collapsed: Set<Seq<char>>, g: Seq<char>)
    ensures
        ({
            let head = " "@ + (if collapsed.contains(g) { "▸"@ } else { "▾"@ }) + " "@;
            &&& repo_row_text(repos, collapsed, RepoTargetView::Group(g)) == repo_row_text(repos, collapsed, RepoTargetView::OpenGroup(g))
            &&& forall|k: int|
                0 <= k < repos.len() && #[trigger] repos[k].group == g && (forall|j: int| 0 <= j < k ==> repos[j].group != g)
                    ==> repo_row_text(repos, collapsed, RepoTargetView::Group(g)) == head + repos[k].group_label
            &&& (forall|k: int| 0 <= k < repos.len() ==> #[trigger] repos[k].group != g)
                ==> repo_row_text(repos, collapsed, RepoTargetView::Group(g)) == head + g
        }),
        forall|i: usize| (i as int) < repos.len() ==> repo_row_text(repos, collapsed, RepoTargetView::Repo(i)) == "   "@
            + (#[trigger] repos[i as int]).name,
{
    let head = " "@ + (if collapsed.contains(g) { "▸"@ } else { "▾"@ }) + " "@;
    assert forall|k: int|
        0 <= k < repos.len() && #[trigger] repos[k].group == g && (forall|j: int| 0 <= j < k ==> repos[j].group != g)
            implies repo_row_text(repos, collapsed, RepoTargetView::Group(g)) == head + repos[k].group_label by {
        let f = find_repo_in_group(repos, g)->0;
        assert(f == k) by {
            if f < k {
                assert(repos[f].group != g);
            } else if f > k {
                assert(repos[k].group == g);
            }
        }
    }
}

/// Law of the group toggle: toggling a group twice leaves the collapsed groups as they were.
pub proof fn lemma_toggle_twice(s: Set<Seq<char>>, g: Seq<char>)
    ensures
        ({
            let once = if s.contains(g) { s.remove(g) } else { s.insert(g) };
            let twice = if once.contains(g) { once.remove(g) } else { once.insert(g) };
            twice == s
        }),
{
    let once = if s.contains(g) { s.remove(g) } else { s.insert(g) };
    let twice = if once.contains(g) { once.remove(g) } else { once.insert(g) };
    assert(twice =~= s);
}

/// The part of the section below its header.
pub open spec fn repo_body(area: Rect) -> Rect {
    Rect { x: area.x, y: sat_add(area.y, 3), width: area.width, height: sat_sub(area.height, 3) }
}

/// How far the rows can scroll: the rows that do not fit in the body.
pub open spec fn repo_max_scroll(n_rows: int, body_height: u16) -> usize {
    if n_rows > body_height { (n_rows - body_height) as usize } else { 0 }
}

/// The line of the row drawn `off` lines into the body.
pub open spec fn repo_row_rect(body: Rect, off: int) -> Rect {
    Rect { x: body.x, y: (body.y + off) as u16, width: body.width, height: 1 }
}

/// The open space a row corresponds to: the first space labelled as the row's space.
pub open spec fn open_space(repos: Seq<RepoInfoView>, ws: Seq<ShellWorkspaceView>, row: RepoTargetView) -> Option<int> {
    match spec_space_for(repos, row) {
        Some((label, _path)) => find_workspace_by_label(ws, label),
        None => None,
    }
}

/// The text of a row: a group header with its fold marker, or an indented repo name.
pub open spec fn repo_row_text(repos: Seq<RepoInfoView>, collapsed: Set<Seq<char>>, row: RepoTargetView) -> Seq<char> {
    match row {
        RepoTargetView::Group(g) | RepoTargetView::OpenGroup(g) => " "@ + (if collapsed.contains(g) { "▸"@ } else { "▾"@ }) + " "@
            + spec_group_display_label(repos, g),
        RepoTargetView::Repo(i) => "   "@ + repos[i as int].name,
    }
}

/// What the row drawn `off` lines into the body draws: the highlight of the
/// focused space's row, then its text, bright when its space is open.
pub open spec fn repo_row_ops(
    repos: Seq<RepoInfoView>,
    ws: Seq<ShellWorkspaceView>,
    collapsed: Set<Seq<char>>,
    body: Rect,
    row: RepoTargetView,
    off: int,
) -> Seq<DrawOpView> {
    let rect = repo_row_rect(body, off);
    let open = open_space(repos, ws, row);
    (if open matches Some(k) && ws[k].focused {
        seq![DrawOpView::Fill { area: rect, tone: Tone::ActiveRow }]
    } else {
        Seq::empty()
    }) + seq![DrawOpView::Text {
        x: rect.x,
        y: rect.y,
        width: rect.width,
        text: repo_row_text(repos, collapsed, row),
        tone: if open is Some { Tone::Text } else { Tone::Muted },
    }]
}

/// The click targets of a row: a header's marker toggles the group and the
/// rest of it opens the group's folder; any other row opens as itself.
pub open spec fn repo_row_hits(body: Rect, row: RepoTargetView, off: int) -> Seq<(Rect, RepoTargetView)> {
    let rect = repo_row_rect(body, off);
    match row {
        RepoTargetView::Group(g) => {
            let marker = Rect { x: rect.x, y: rect.y, width: min_u16(rect.width, 3), height: rect.height };
            seq![
                (marker, row),
                (Rect { x: marker.spec_right(), y: rect.y, width: (rect.width - marker.width) as u16, height: rect.height },
                    RepoTargetView::OpenGroup(g)),
            ]
        },
        _ => seq![(rect, row)],
    }
}

/// The drawing instructions of the first `n` visible rows, starting at row `first`.
pub open spec fn visible_repo_ops(
    repos: Seq<RepoInfoView>,
    ws: Seq<ShellWorkspaceView>,
    collapsed: Set<Seq<char>>,
    body: Rect,
    rows: Seq<RepoTargetView>,
    first: int,
    n: int,
) -> Seq<DrawOpView>
    decreases n,
{
    if n <= 0 {
        Seq::empty()
    } else {
        visible_repo_ops(repos, ws, collapsed, body, rows, first, n - 1) + repo_row_ops(repos, ws, collapsed, body, rows[first + n - 1], n - 1)
    }
}

/// The click targets of the first `n` visible rows, starting at row `first`.
pub open spec fn visible_repo_hits(body: Rect, rows: Seq<RepoTargetView>, first: int, n: int) -> Seq<(Rect, RepoTargetView)>
    decreases n,
{
    if n <= 0 {
        Seq::empty()
    } else {
        visible_repo_hits(body, rows, first, n - 1) + repo_row_hits(body, rows[first + n - 1], n - 1)
    }
}

/// What the repos section draws, where it can be clicked, and its scroll bounds.
#[derive(Debug)]
pub struct RepoPanel {
    pub ops: Vec<DrawOp>,
    pub hits: Vec<(Rect, RepoTarget)>,
    /// The body of the section, once the header fits.
    pub body: Option<Rect>,
    /// How far the rows can scroll, once the body has room.
    pub max_scroll: Option<usize>,
}

/// The views of a sequence of click targets.
pub open spec fn hit_views(s: Seq<(Rect, RepoTarget)>) -> Seq<(Rect, RepoTargetView)> {
    s.map_values(|h: (Rect, RepoTarget)| (h.0, h.1@))
}

fn repo_row_text_exec(repos: &Vec<RepoInfo>, collapsed: &CollapsedGroups, row: &RepoTarget) -> (s: String)
    requires
        row@ matches RepoTargetView::Repo(i) ==> i < repos.len(),
    ensures
        s@ == repo_row_text(views(repos@), collapsed@, row@),
{
    match row {
        RepoTarget::Group(group) | RepoTarget::OpenGroup(group) => {
            let mut s = String::from_str(" ");
            if collapsed.contains(group.as_str()) {
                s.append("▸");
            } else {
                s.append("▾");
            }
            s.append(" ");
            s.append(group_display_label(repos, group.as_str()));
            assert(s@ =~= repo_row_text(views(repos@), collapsed@, row@));
            s
        },
        RepoTarget::Repo(index) => {
            let mut s = String::from_str("   ");
            s.append(repos[*index].name.as_str());
            assert(views(repos@)[*index as int] == repos@[*index as int]@);
            assert(s@ =~= repo_row_text(views(repos@), collapsed@, row@));
            s
        },
    }
}

fn push_repo_row(
    ops: &mut Vec<DrawOp>,
    hits: &mut Vec<(Rect, RepoTarget)>,
    workspaces: &Vec<ShellWorkspace>,
    repos: &Vec<RepoInfo>,
    collapsed: &CollapsedGroups,
    body: Rect,
    row: &RepoTarget,
    off: u16,
)
    requires
        body.y + off <= 65535,
        row@ matches RepoTargetView::Repo(i) ==> i < repos.len(),
    ensures
        op_views(final(ops)@) == op_views(old(ops)@) + repo_row_ops(views(repos@), workspace_views(workspaces@), collapsed@, body, row@, off as int),
        hit_views(final(hits)@) == hit_views(old(hits)@) + repo_row_hits(body, row@, off as int),
{
    let rect = Rect { x: body.x, y: body.y + off, width: body.width, height: 1 };
    assert(rect == repo_row_rect(body, off as int));
    push_repo_row_ops(ops, workspaces, repos, collapsed, rect, row);
    push_repo_row_hits(hits, rect, row);
}

fn open_space_exec(workspaces: &Vec<ShellWorkspace>, repos: &Vec<RepoInfo>, row: &RepoTarget) -> (open: Option<usize>)
    ensures
        match open {
            Some(k) => k < workspaces.len() && open_space(views(repos@), workspace_views(workspaces@), row@) == Some(k as int),
            None => open_space(views(repos@), workspace_views(workspaces@), row@) is None,
        },
{
    match space_for(repos, row) {
        Some((label, _path)) => workspace_with_label(workspaces, &label),
        None => None,
    }
}

fn push_repo_row_ops(
    ops: &mut Vec<DrawOp>,
    workspaces: &Vec<ShellWorkspace>,
    repos: &Vec<RepoInfo>,
    collapsed: &CollapsedGroups,
    rect: Rect,
    row: &RepoTarget,
)
    requires
        row@ matches RepoTargetView::Repo(i) ==> i < repos.len(),
    ensures
        op_views(final(ops)@) == op_views(old(ops)@) + ((if open_space(views(repos@), workspace_views(workspaces@), row@) matches Some(k)
            && workspace_views(workspaces@)[k].focused {
            seq![DrawOpView::Fill { area: rect, tone: Tone::ActiveRow }]
        } else {
            Seq::empty()
        }) + seq![DrawOpView::Text {
            x: rect.x,
            y: rect.y,
            width: rect.width,
            text: repo_row_text(views(repos@), collapsed@, row@),
            tone: if open_space(views(repos@), workspace_views(workspaces@), row@) is Some { Tone::Text } else { Tone::Muted },
        }]),
{
    let ghost ws = workspace_views(workspaces@);
    let open = open_space_exec(workspaces, repos, row);
    let ghost before_ops = op_views(ops@);
    let focused = match open {
        Some(k) => workspaces[k].focused,
        None => false,
    };
    proof {
        if let Some(k) = open {
            assert(ws[k as int] == workspaces@[k as int]@);
        }
    }
    if focused {
        ops.push(DrawOp::Fill { area: rect, tone: Tone::ActiveRow });
    }
    let text = repo_row_text_exec(repos, collapsed, row);
    ops.push(DrawOp::Text {
        x: rect.x,
        y: rect.y,
        width: rect.width,
        text,
        tone: if open.is_some() { Tone::Text } else { Tone::Muted },
    });
    assert(op_views(ops@) =~= before_ops + ((if focused {
        seq![DrawOpView::Fill { area: rect, tone: Tone::ActiveRow }]
    } else {
        Seq::empty()
    }) + seq![DrawOpView::Text {
        x: rect.x,
        y: rect.y,
        width: rect.width,
        text: repo_row_text(views(repos@), collapsed@, row@),
        tone: if open.is_some() { Tone::Text } else { Tone::Muted },
    }]));
}

fn push_repo_row_hits(hits: &mut Vec<(Rect, RepoTarget)>, rect: Rect, row: &RepoTarget)
    ensures
        hit_views(final(hits)@) == hit_views(old(hits)@) + (match row@ {
            RepoTargetView::Group(g) => {
                let marker = Rect { x: rect.x, y: rect.y, width: min_u16(rect.width, 3), height: rect.height };
                seq![
                    (marker, row@),
                    (Rect { x: marker.spec_right(), y: rect.y, width: (rect.width - marker.width) as u16, height: rect.height },
                        RepoTargetView::OpenGroup(g)),
                ]
            },
            _ => seq![(rect, row@)],
        }),
{
    let ghost before_hits = hit_views(hits@);
    match row {
        RepoTarget::Group(group) => {
            let marker = Rect { x: rect.x, y: rect.y, width: min(rect.width, 3), height: rect.height };
            hits.push((marker, row.duplicate()));
            hits.push((
                Rect { x: marker.right(), y: rect.y, width: rect.width - marker.width, height: rect.height },
                RepoTarget::OpenGroup(group.clone()),
            ));
            assert(hit_views(hits@) =~= before_hits + seq![
                (marker, row@),
                (Rect { x: marker.spec_right(), y: rect.y, width: (rect.width - marker.width) as u16, height: rect.height },
                    RepoTargetView::OpenGroup(group@)),
            ]);
        },
        _ => {
            hits.push((rect, row.duplicate()));
            assert(hit_views(hits@) =~= before_hits + seq![(rect, row@)]);
        },
    }
}

/// Lays out the repos section in `area`: divider, title, then the rows that
/// fit from the scroll position, which is first clamped to the rows there are.
#[verifier::rlimit(40)]
pub fn render_repo_panel(
    area: Rect,
    workspaces: &Vec<ShellWorkspace>,
    repos: &Vec<RepoInfo>,
    collapsed: &CollapsedGroups,
    scroll: &mut usize,
) -> (panel: RepoPanel)
    requires
        area.y + area.height <= 65535,
    ensures
        ({
            let ws = workspace_views(workspaces@);
            let rv = views(repos@);
            let body = repo_body(area);
            if area.height < 2 {
                &&& panel.ops@.len() == 0
                &&& panel.hits@.len() == 0
                &&& panel.body is None
                &&& panel.max_scroll is None
                &&& *final(scroll) == *old(scroll)
            } else if body.spec_is_empty() {
                &&& op_views(panel.ops@) == section_header(area, " repos"@)
                &&& panel.hits@.len() == 0
                &&& panel.body == Some(body)
                &&& panel.max_scroll is None
                &&& *final(scroll) == *old(scroll)
            } else {
                let rows = spec_rows(rv, collapsed@);
                let max = repo_max_scroll(rows.len() as int, body.height);
                let first: usize = if *old(scroll) < max { *old(scroll) } else { max };
                let n = if rows.len() - first < body.height { rows.len() - first } else { body.height as int };
                &&& panel.body == Some(body)
                &&& panel.max_scroll == Some(max)
                &&& *final(scroll) == first
                &&& op_views(panel.ops@) == section_header(area, " repos"@) + visible_repo_ops(rv, ws, collapsed@, body, rows, first as int, n)
                &&& hit_views(panel.hits@) == visible_repo_hits(body, rows, first as int, n)
            }
        }),
{
    let ghost ws = workspace_views(workspaces@);
    let ghost rv = views(repos@);
    let mut ops: Vec<DrawOp> = Vec::new();
    let mut hits: Vec<(Rect, RepoTarget)> = Vec::new();
    if area.height < 2 {
        return RepoPanel { ops, hits, body: None, max_scroll: None };
    }
    push_section_header(&mut ops, area, " repos");
    let body = Rect { x: area.x, y: saturating_add(area.y, 3), width: area.width, height: saturating_sub(area.height, 3) };
    if body.is_empty() {
        assert(op_views(ops@) =~= section_header(area, " repos"@));
        return RepoPanel { ops, hits, body: Some(body), max_scroll: None };
    }
    let rows = rows(repos, collapsed);
    let ghost rows_v = target_views(rows@);
    assert(forall|k: int| 0 <= k < rows_v.len() ==> (#[trigger] rows_v[k] matches RepoTargetView::Repo(i) ==> i < rv.len())) by {
        assert(rv.len() == repos.len());
        lemma_rows_show_uncollapsed_repos(rv, collapsed@);
    }
    let max_scroll: usize = if rows.len() > body.height as usize { rows.len() - body.height as usize } else { 0 };
    if *scroll > max_scroll {
        *scroll = max_scroll;
    }
    let first = *scroll;
    let left = rows.len() - first;
    let n: usize = if left < body.height as usize { left } else { body.height as usize };
    let ghost ops0 = op_views(ops@);
    let mut off: usize = 0;
    while off < n
        invariant
            ws == workspace_views(workspaces@),
            rv == views(repos@),
            rows_v == target_views(rows@),
            rows_v == spec_rows(rv, collapsed@),
            forall|k: int| 0 <= k < rows_v.len() ==> (#[trigger] rows_v[k] matches RepoTargetView::Repo(i) ==> i < rv.len()),
            area.y + area.height <= 65535,
            area.height >= 3,
            body == repo_body(area),
            first + n <= rows.len(),
            n <= body.height,
            off <= n,
            op_views(ops@) == ops0 + visible_repo_ops(rv, ws, collapsed@, body, rows_v, first as int, off as int),
            hit_views(hits@) == visible_repo_hits(body, rows_v, first as int, off as int),
        decreases n - off,
    {
        let row = &rows[first + off];
        assert(rows_v[first + off] == row@);
        push_repo_row(&mut ops, &mut hits, workspaces, repos, collapsed, body, row, off as u16);
        proof {
            assert(visible_repo_ops(rv, ws, collapsed@, body, rows_v, first as int, off + 1) ==
                visible_repo_ops(rv, ws, collapsed@, body, rows_v, first as int, off as int) + repo_row_ops(rv, ws, collapsed@, body, row@, off as int));
            assert(op_views(ops@) =~= ops0 + visible_repo_ops(rv, ws, collapsed@, body, rows_v, first as int, off + 1));
            assert(visible_repo_hits(body, rows_v, first as int, off + 1) ==
                visible_repo_hits(body, rows_v, first as int, off as int) + repo_row_hits(body, row@, off as int));
        }
        off = off + 1;
    }
    RepoPanel { ops, hits, body: Some(body), max_scroll: Some(max_scroll) }
}

} // verus!
