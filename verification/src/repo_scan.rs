//! What the server decides while it walks the repo roots: which folders it
//! looks into, what it records for a repository, and the order of the list.

use vstd::prelude::*;

use crate::schema::{views, RepoInfo, RepoInfoView};
use crate::text::{char_lt, chars_eq, chars_lt, chars_of, lemma_char_lt_order, lowercase, to_lowercase};

verus! {

/// The sort key of a repo: its group, then its name, both lowercased.
pub open spec fn scan_key(r: RepoInfoView) -> (Seq<char>, Seq<char>) {
    (lowercase(r.group), lowercase(r.name))
}

/// Strict order of sort keys: by group, then by name.
pub open spec fn key_lt(a: (Seq<char>, Seq<char>), b: (Seq<char>, Seq<char>)) -> bool {
    char_lt(a.0, b.0) || (a.0 == b.0 && char_lt(a.1, b.1))
}

/// `key_lt` is a strict total order.
pub proof fn lemma_key_lt_order(
    a: (Seq<char>, Seq<char>),
    b: (Seq<char>, Seq<char>),
    c: (Seq<char>, Seq<char>),
)
    ensures
        !key_lt(a, a),
        key_lt(a, b) || a == b || key_lt(b, a),
        !(key_lt(a, b) && key_lt(b, a)),
        key_lt(a, b) && key_lt(b, c) ==> key_lt(a, c),
{
    lemma_char_lt_order(a.0, b.0, c.0);
    lemma_char_lt_order(a.1, b.1, c.1);
    lemma_char_lt_order(b.0, c.0, a.0);
    lemma_char_lt_order(b.1, c.1, a.1);
}

/// The sort keys of a sequence of repos.
pub open spec fn scan_keys(input: Seq<RepoInfoView>) -> Seq<(Seq<char>, Seq<char>)> {
    input.map_values(|r: RepoInfoView| scan_key(r))
}

/// The keys of a vector of character pairs.
pub open spec fn key_views(keys: Seq<(Vec<char>, Vec<char>)>) -> Seq<(Seq<char>, Seq<char>)> {
    keys.map_values(|k: (Vec<char>, Vec<char>)| (k.0@, k.1@))
}

/// Position `a` comes before position `b` in a stable sort by `keys`:
/// by key, and by position in the input among equal keys.
pub open spec fn stably_before(keys: Seq<(Seq<char>, Seq<char>)>, a: int, b: int) -> bool {
    key_lt(keys[a], keys[b]) || (keys[a] == keys[b] && a < b)
}

/// `p` lists the positions of `input` once each, in stable order by
/// `keys`, and `out` holds the elements at those positions.
pub open spec fn stable_order_witness(
    p: Seq<int>,
    out: Seq<RepoInfoView>,
    input: Seq<RepoInfoView>,
    keys: Seq<(Seq<char>, Seq<char>)>,
) -> bool {
    &&& p.len() == input.len()
    &&& out.len() == input.len()
    &&& p.no_duplicates()
    &&& forall|k: int| 0 <= k < p.len() ==> 0 <= #[trigger] p[k] < input.len()
    &&& forall|k: int| 0 <= k < out.len() ==> #[trigger] out[k] == input[p[k]]
    &&& forall|k: int, l: int| 0 <= k < l < p.len() ==> stably_before(keys, #[trigger] p[k], #[trigger] p[l])
}

/// `out` is `input` sorted by `keys` (the key of each position), keeping
/// the input order among equal keys (as `sort_by` does).
pub open spec fn is_stable_sort_by(out: Seq<RepoInfoView>, input: Seq<RepoInfoView>, keys: Seq<(Seq<char>, Seq<char>)>) -> bool {
    exists|p: Seq<int>| stable_order_witness(p, out, input, keys)
}

/// `out` is `input` sorted by group then name, ignoring case, keeping the
/// walk order among repos with equal keys.
pub open spec fn is_stable_sort(out: Seq<RepoInfoView>, input: Seq<RepoInfoView>) -> bool {
    is_stable_sort_by(out, input, scan_keys(input))
}

/// Drops each repo whose path equals that of the last one kept (as `dedup_by` does).
pub open spec fn dedup_by_path(s: Seq<RepoInfoView>) -> Seq<RepoInfoView>
    decreases s.len(),
{
    if s.len() == 0 {
        s
    } else {
        let kept = dedup_by_path(s.drop_last());
        if kept.len() > 0 && kept.last().path == s.last().path {
            kept
        } else {
            kept.push(s.last())
        }
    }
}

proof fn lemma_dedup_props(s: Seq<RepoInfoView>)
    ensures
        dedup_by_path(s).len() <= s.len(),
        s.len() > 0 ==> dedup_by_path(s).len() > 0 && dedup_by_path(s).last().path == s.last().path,
        forall|k: int| 0 <= k < dedup_by_path(s).len() ==> exists|j: int| 0 <= j < s.len() && #[trigger] dedup_by_path(s)[k] == s[j],
        forall|k: int| 0 <= k < dedup_by_path(s).len() - 1 ==> #[trigger] dedup_by_path(s)[k].path != dedup_by_path(s)[k + 1].path,
    decreases s.len(),
{
    if s.len() > 0 {
        lemma_dedup_props(s.drop_last());
        let kept = dedup_by_path(s.drop_last());
        assert forall|k: int| 0 <= k < dedup_by_path(s).len() implies exists|j: int| 0 <= j < s.len() && #[trigger] dedup_by_path(s)[k] == s[j] by {
            if k < kept.len() {
                let j = choose|j: int| 0 <= j < s.drop_last().len() && kept[k] == s.drop_last()[j];
                assert(dedup_by_path(s)[k] == s[j]);
            } else {
                assert(dedup_by_path(s)[k] == s[s.len() - 1]);
            }
        }
    }
}

/// No element of `s` has a key below that of an earlier one.
pub open spec fn keys_nondecreasing(s: Seq<RepoInfoView>) -> bool {
    forall|a: int, b: int| 0 <= a < b < s.len() ==> !key_lt(scan_key(#[trigger] s[b]), scan_key(#[trigger] s[a]))
}

proof fn lemma_dedup_keeps_order(s: Seq<RepoInfoView>)
    requires
        keys_nondecreasing(s),
    ensures
        keys_nondecreasing(dedup_by_path(s)),
    decreases s.len(),
{
    if s.len() > 0 {
        let t = s.drop_last();
        assert(keys_nondecreasing(t)) by {
            assert forall|a: int, b: int| 0 <= a < b < t.len() implies !key_lt(scan_key(#[trigger] t[b]), scan_key(#[trigger] t[a])) by {
                assert(t[a] == s[a] && t[b] == s[b]);
            }
        }
        lemma_dedup_keeps_order(t);
        lemma_dedup_props(t);
        let kept = dedup_by_path(t);
        let d = dedup_by_path(s);
        assert forall|a: int, b: int| 0 <= a < b < d.len() implies !key_lt(scan_key(#[trigger] d[b]), scan_key(#[trigger] d[a])) by {
            if b < kept.len() {
                assert(d[a] == kept[a] && d[b] == kept[b]);
            } else {
                assert(d[a] == kept[a]);
                assert(d[b] == s.last());
                let j = choose|j: int| 0 <= j < t.len() && kept[a] == t[j];
                assert(t[j] == s[j]);
                assert(!key_lt(scan_key(s[s.len() - 1]), scan_key(s[j])));
            }
        }
    }
}

/// Sorts repos by their keys (`keys[i]` is the key of `found[i]`),
/// keeping the input order among equal keys.
pub fn sort_by_keys(found: Vec<RepoInfo>, keys: &Vec<(Vec<char>, Vec<char>)>) -> (sorted: Vec<RepoInfo>)
    requires
        keys.len() == found.len(),
    ensures
        is_stable_sort_by(views(sorted@), views(found@), key_views(keys@)),
{
    let ghost input = views(found@);
    let ghost kv = key_views(keys@);
    let n = found.len();
    let mut order: Vec<usize> = Vec::new();
    let mut i: usize = 0;
    while i < n
        invariant
            n == found.len(),
            keys.len() == n,
            kv == key_views(keys@),
            i <= n,
            order.len() == i,
            order@.no_duplicates(),
            forall|k: int| 0 <= k < i ==> #[trigger] order@[k] < i,
            forall|k: int, l: int| 0 <= k < l < i ==> stably_before(kv, #[trigger] order@[k] as int, #[trigger] order@[l] as int),
        decreases n - i,
    {
        let mut pos: usize = 0;
        while pos < order.len() && !(chars_lt(&keys[i].0, &keys[order[pos]].0) || (chars_eq(&keys[i].0, &keys[order[pos]].0) && chars_lt(&keys[i].1, &keys[order[pos]].1)))
            invariant
                keys.len() == n,
                kv == key_views(keys@),
                i < n,
                order.len() == i,
                forall|k: int| 0 <= k < i ==> #[trigger] order@[k] < i,
                pos <= order.len(),
                forall|k: int| 0 <= k < pos ==> !key_lt(kv[i as int], kv[#[trigger] order@[k] as int]),
            decreases order.len() - pos,
        {
            pos = pos + 1;
        }
        let ghost old_order = order@;
        proof {
            assert forall|k: int| 0 <= k < pos implies stably_before(kv, #[trigger] old_order[k] as int, i as int) by {
                lemma_key_lt_order(kv[i as int], kv[old_order[k] as int], kv[i as int]);
            }
            if pos < i {
                assert(key_lt(kv[i as int], kv[old_order[pos as int] as int]));
                assert forall|k: int| pos <= k < i implies stably_before(kv, i as int, #[trigger] old_order[k] as int) by {
                    if k > pos {
                        assert(stably_before(kv, old_order[pos as int] as int, old_order[k] as int));
                        lemma_key_lt_order(kv[i as int], kv[old_order[pos as int] as int], kv[old_order[k] as int]);
                    }
                }
            }
        }
        order.insert(pos, i);
        proof {
            assert forall|k: int, l: int| 0 <= k < l < i + 1 implies stably_before(kv, #[trigger] order@[k] as int, #[trigger] order@[l] as int) by {
                if l < pos {
                    assert(order@[k] == old_order[k] && order@[l] == old_order[l]);
                } else if l == pos {
                    assert(order@[k] == old_order[k]);
                } else if k < pos {
                    assert(order@[k] == old_order[k] && order@[l] == old_order[l - 1]);
                } else if k == pos {
                    assert(order@[l] == old_order[l - 1]);
                } else {
                    assert(order@[k] == old_order[k - 1] && order@[l] == old_order[l - 1]);
                }
            }
            assert forall|k: int| 0 <= k < i + 1 implies #[trigger] order@[k] < i + 1 by {
                if k < pos {
                    assert(order@[k] == old_order[k]);
                } else if k > pos {
                    assert(order@[k] == old_order[k - 1]);
                }
            }
            assert forall|k: int, l: int| 0 <= k < order@.len() && 0 <= l < order@.len() && k != l implies order@[k] != order@[l] by {
                if k != pos && l != pos {
                    let kk = if k < pos { k } else { k - 1 };
                    let ll = if l < pos { l } else { l - 1 };
                    assert(order@[k] == old_order[kk] && order@[l] == old_order[ll]);
                } else if k == pos {
                    let ll = if l < pos { l } else { l - 1 };
                    assert(order@[l] == old_order[ll]);
                } else {
                    let kk = if k < pos { k } else { k - 1 };
                    assert(order@[k] == old_order[kk]);
                }
            }
        }
        i = i + 1;
    }
    let mut sorted: Vec<RepoInfo> = Vec::new();
    let mut k: usize = 0;
    while k < n
        invariant
            n == found.len(),
            input == views(found@),
            order.len() == n,
            forall|j: int| 0 <= j < n ==> #[trigger] order@[j] < n,
            k <= n,
            sorted.len() == k,
            forall|j: int| 0 <= j < k ==> #[trigger] sorted@[j]@ == input[order@[j] as int],
        decreases n - k,
    {
        sorted.push(found[order[k]].duplicate());
        k = k + 1;
    }
    proof {
        let p = order@.map_values(|x: usize| x as int);
        assert(p.no_duplicates()) by {
            assert forall|a: int, b: int| 0 <= a < p.len() && 0 <= b < p.len() && a != b implies p[a] != p[b] by {
                assert(order@[a] != order@[b]);
            }
        }
        assert forall|a: int, b: int| 0 <= a < b < p.len() implies stably_before(kv, #[trigger] p[a], #[trigger] p[b]) by {
            assert(stably_before(kv, order@[a] as int, order@[b] as int));
        }
        assert(stable_order_witness(p, views(sorted@), input, kv));
    }
    sorted
}

/// Drops each repo whose path equals that of the last one kept.
pub fn dedup_paths(sorted: Vec<RepoInfo>) -> (repos: Vec<RepoInfo>)
    ensures
        views(repos@) == dedup_by_path(views(sorted@)),
{
    let ghost sv = views(sorted@);
    let n = sorted.len();
    let mut repos: Vec<RepoInfo> = Vec::new();
    let mut k: usize = 0;
    while k < n
        invariant
            n == sorted.len(),
            sv == views(sorted@),
            k <= n,
            views(repos@) == dedup_by_path(sv.take(k as int)),
        decreases n - k,
    {
        proof {
            assert(sv.take(k + 1).drop_last() =~= sv.take(k as int));
            lemma_dedup_props(sv.take(k as int));
        }
        let keep = repos.len() == 0 || !(repos[repos.len() - 1].path == sorted[k].path);
        if keep {
            repos.push(sorted[k].duplicate());
            assert(views(repos@) =~= dedup_by_path(sv.take(k as int)).push(sv[k as int]));
        }
        k = k + 1;
    }
    assert(sv.take(n as int) =~= sv);
    repos
}

/// The lowercased group and name of each repo.
pub fn sort_keys(found: &Vec<RepoInfo>) -> (keys: Vec<(Vec<char>, Vec<char>)>)
    ensures
        key_views(keys@) == scan_keys(views(found@)),
{
    let ghost input = views(found@);
    let n = found.len();
    let mut keys: Vec<(Vec<char>, Vec<char>)> = Vec::new();
    let mut i: usize = 0;
    while i < n
        invariant
            n == found.len(),
            input == views(found@),
            i <= n,
            keys.len() == i,
            forall|k: int| 0 <= k < i ==> (#[trigger] keys@[k].0@, keys@[k].1@) == scan_key(input[k]),
        decreases n - i,
    {
        let g = to_lowercase(found[i].group.as_str());
        let m = to_lowercase(found[i].name.as_str());
        keys.push((chars_of(g.as_str()), chars_of(m.as_str())));
        i = i + 1;
    }
    assert(key_views(keys@) =~= scan_keys(input));
    keys
}

/// Sorts the repos found under all roots by group then name, ignoring case,
/// and drops a repo whose path repeats the one before it.
pub fn scan(found: Vec<RepoInfo>) -> (repos: Vec<RepoInfo>)
    ensures
        exists|sorted: Seq<RepoInfoView>|
            is_stable_sort(sorted, views(found@)) && views(repos@) == dedup_by_path(sorted),
        forall|k: int| 0 <= k < repos.len() - 1 ==>
            !key_lt(scan_key(#[trigger] repos@[k + 1]@), scan_key(repos@[k]@)),
        forall|k: int| 0 <= k < repos.len() - 1 ==> #[trigger] repos@[k]@.path != repos@[k + 1]@.path,
        forall|k: int| 0 <= k < repos.len() ==> exists|j: int| 0 <= j < found.len() && #[trigger] repos@[k]@ == found@[j]@,
{
    let ghost input = views(found@);
    let keys = sort_keys(&found);
    let ghost kv = key_views(keys@);
    assert(kv.len() == keys@.len() && scan_keys(input).len() == input.len());
    let sorted = sort_by_keys(found, &keys);
    let ghost sorted_views = views(sorted@);
    let repos = dedup_paths(sorted);
    proof {
        let p = choose|p: Seq<int>| stable_order_witness(p, sorted_views, input, kv);
        assert(is_stable_sort(sorted_views, input));
        lemma_dedup_props(sorted_views);
        assert(keys_nondecreasing(sorted_views)) by {
            assert forall|a: int, b: int| 0 <= a < b < sorted_views.len() implies !key_lt(scan_key(#[trigger] sorted_views[b]), scan_key(#[trigger] sorted_views[a])) by {
                assert(stably_before(kv, p[a], p[b]));
                assert(kv[p[a]] == scan_key(input[p[a]]));
                assert(kv[p[b]] == scan_key(input[p[b]]));
                lemma_key_lt_order(kv[p[a]], kv[p[b]], kv[p[a]]);
            }
        }
        lemma_dedup_keeps_order(sorted_views);
        assert forall|a: int| 0 <= a < repos.len() - 1 implies !key_lt(scan_key(#[trigger] repos@[a + 1]@), scan_key(repos@[a]@)) by {
            assert(views(repos@)[a] == repos@[a]@);
            assert(views(repos@)[a + 1] == repos@[a + 1]@);
        }
        assert forall|a: int| 0 <= a < repos.len() - 1 implies #[trigger] repos@[a]@.path != repos@[a + 1]@.path by {
            assert(views(repos@)[a] == repos@[a]@);
            assert(views(repos@)[a + 1] == repos@[a + 1]@);
        }
        assert forall|a: int| 0 <= a < repos.len() implies exists|j: int| 0 <= j < found.len() && #[trigger] repos@[a]@ == found@[j]@ by {
            assert(views(repos@)[a] == repos@[a]@);
            let j = choose|j: int| 0 <= j < sorted_views.len() && dedup_by_path(sorted_views)[a] == sorted_views[j];
            assert(sorted_views[j] == input[p[j]]);
            assert(input[p[j]] == found@[p[j]]@);
        }
    }
    repos
}

/// What the walk does with one entry of a folder it lists.
#[derive(Debug, Clone, Copy, PartialEq, Eq)]
pub enum EntryAction {
    /// Not a folder, a hidden or build folder, or the depth is used up.
    Skip,
    /// A plain folder: list it too, with this much depth left.
    Descend(usize),
    /// A folder holding `.git`: record it as a repository.
    Repo,
}

/// Folders the walk never enters: hidden ones, `node_modules` and `target`.
pub open spec fn is_skipped_name(name: Seq<char>) -> bool {
    ||| (name.len() > 0 && name[0] == '.')
    ||| name == "node_modules"@
    ||| name == "target"@
}

/// The action for an entry named `name`, found in a folder listed with
/// `depth` levels left; `has_git` tells whether `.git` exists inside it.
pub open spec fn spec_entry_action(depth: usize, name: Seq<char>, is_dir: bool, has_git: bool) -> EntryAction {
    if depth == 0 || !is_dir || is_skipped_name(name) {
        EntryAction::Skip
    } else if has_git {
        EntryAction::Repo
    } else {
        EntryAction::Descend((depth - 1) as usize)
    }
}

/// Law of the walk's decisions: nothing is entered once the depth is used up
/// or for an entry that is not a folder; a folder is passed over only when
/// its name starts with a dot or is `node_modules` or `target` (a dot later
/// in the name hides nothing); any other folder is recorded when it holds
/// `.git` and listed one level deeper otherwise.
pub proof fn lemma_entry_action_skips_only_hidden_and_build_folders(depth: usize, name: Seq<char>, is_dir: bool, has_git: bool)
    ensures
        depth == 0 || !is_dir ==> spec_entry_action(depth, name, is_dir, has_git) == EntryAction::Skip,
        depth > 0 && is_dir && ((name.len() > 0 && name[0] == '.') || name == "node_modules"@ || name == "target"@)
            ==> spec_entry_action(depth, name, is_dir, has_git) == EntryAction::Skip,
        depth > 0 && is_dir && !(name.len() > 0 && name[0] == '.') && name != "node_modules"@ && name != "target"@
            ==> spec_entry_action(depth, name, is_dir, has_git) == (if has_git {
                EntryAction::Repo
            } else {
                EntryAction::Descend((depth - 1) as usize)
            }),
{
}

/// Decides what the walk does with one folder entry.
pub fn entry_action(depth: usize, name: &str, is_dir: bool, has_git: bool) -> (action: EntryAction)
    ensures
        action == spec_entry_action(depth, name@, is_dir, has_git),
{
    if depth == 0 || !is_dir {
        return EntryAction::Skip;
    }
    let chars = chars_of(name);
    let hidden = chars.len() > 0 && chars[0] == '.';
    let node_modules = chars_of("node_modules");
    let target = chars_of("target");
    proof {
        reveal_strlit("node_modules");
        reveal_strlit("target");
    }
    if hidden || chars_eq(&chars, &node_modules) || chars_eq(&chars, &target) {
        EntryAction::Skip
    } else if has_git {
        EntryAction::Repo
    } else {
        EntryAction::Descend(depth - 1)
    }
}

/// `s` with every backslash turned into a slash.
pub open spec fn forward_slashes(s: Seq<char>) -> Seq<char> {
    s.map_values(|c: char| if c == '\\' { '/' } else { c })
}

/// `s` with every backslash turned into a slash.
pub fn with_forward_slashes(s: &str) -> (r: String)
    ensures
        r@ == forward_slashes(s@),
{
    let chars = chars_of(s);
    let mut r = String::new();
    let mut i: usize = 0;
    while i < chars.len()
        invariant
            chars@ == s@,
            i <= chars.len(),
            r@ == forward_slashes(s@.take(i as int)),
        decreases chars.len() - i,
    {
        let c = chars[i];
        crate::text::push_char(&mut r, if c == '\\' { '/' } else { c });
        i = i + 1;
        assert(r@ =~= forward_slashes(s@.take(i as int)));
    }
    assert(s@.take(i as int) =~= s@);
    r
}

/// What the walk knows of the folder a repository sits in.
#[derive(Debug)]
pub struct ParentDir {
    /// The folder relative to the scan root, when it lies under it.
    pub relative: Option<String>,
    /// The folder's own name, when it has one.
    pub name: Option<String>,
    /// The folder's full path.
    pub path: String,
}

/// The group of a repo: its folder relative to the scan root with forward
/// slashes, or the root's name for a repo directly in the root.
pub open spec fn spec_repo_group(relative: Option<Seq<char>>, root_name: Seq<char>) -> Seq<char> {
    match relative {
        Some(rel) => if rel.len() > 0 { forward_slashes(rel) } else { root_name },
        None => root_name,
    }
}

/// The repo record for folder `name` at `path`, found in `parent` under the
/// root named `root_name`.
pub fn repo_entry(name: String, path: String, parent: &ParentDir, root_name: &str) -> (repo: RepoInfo)
    ensures
        repo.name@ == name@,
        repo.path@ == path@,
        repo.group@ == spec_repo_group(
            match parent.relative { Some(r) => Some(r@), None => None },
            root_name@,
        ),
        repo.group_label@ == match parent.name { Some(n) => n@, None => root_name@ },
        repo.group_path@ == parent.path@,
{
    let group = match &parent.relative {
        Some(rel) => if rel.unicode_len() > 0 {
            with_forward_slashes(rel.as_str())
        } else {
            String::from_str(root_name)
        },
        None => String::from_str(root_name),
    };
    let group_label = match &parent.name {
        Some(n) => n.clone(),
        None => String::from_str(root_name),
    };
    RepoInfo { name, path, group, group_label, group_path: parent.path.clone() }
}

} // verus!
