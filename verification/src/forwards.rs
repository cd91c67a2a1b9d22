//! The machines a client talks to, and the table of ports it tunnels from them.

use vstd::prelude::*;

verus! {

/// The machine a client shell talks to: this one, or one reached through an SSH profile.
#[derive(Debug, Clone, PartialEq, Eq)]
pub enum ClientEndpointId {
    Local,
    Ssh(String),
}

impl View for ClientEndpointId {
    /// `None` for the local machine, the profile id for an SSH machine.
    type V = Option<Seq<char>>;

    open spec fn view(&self) -> Option<Seq<char>> {
        match self {
            ClientEndpointId::Local => None,
            ClientEndpointId::Ssh(id) => Some(id@),
        }
    }
}

impl ClientEndpointId {
    /// Whether two endpoint ids name the same machine.
    pub fn same_as(&self, other: &ClientEndpointId) -> (r: bool)
        ensures
            r == (self@ == other@),
    {
        match self {
            ClientEndpointId::Local => match other {
                ClientEndpointId::Local => true,
                ClientEndpointId::Ssh(_) => false,
            },
            ClientEndpointId::Ssh(a) => match other {
                ClientEndpointId::Local => false,
                ClientEndpointId::Ssh(b) => {
                    let r = *a == *b;
                    assert(r == (a@ == b@));
                    r
                },
            },
        }
    }

    /// A copy naming the same machine.
    pub fn duplicate(&self) -> (r: ClientEndpointId)
        ensures
            r@ == self@,
    {
        match self {
            ClientEndpointId::Local => ClientEndpointId::Local,
            ClientEndpointId::Ssh(id) => ClientEndpointId::Ssh(id.clone()),
        }
    }
}

/// Compares optional endpoint ids.
pub fn same_endpoint_opt(a: &Option<ClientEndpointId>, b: &ClientEndpointId) -> (r: bool)
    ensures
        r == (match a { Some(x) => x@ == b@, None => false }),
{
    match a {
        Some(x) => x.same_as(b),
        None => false,
    }
}

/// A remote port tunneled to this machine: the local port it arrives on,
/// whether it was added by hand, and the handle of the tunnel process.
pub struct PortForward<H> {
    pub local_port: u16,
    /// Added by hand, so it stays even though no pane process owns the listener.
    pub manual: bool,
    pub handle: H,
}

/// One tunnel with its key: the machine and the remote port.
pub struct ForwardEntry<H> {
    pub endpoint: ClientEndpointId,
    pub remote_port: u16,
    pub forward: PortForward<H>,
}

/// The key of a tunnel as a plain value.
pub open spec fn entry_key<H>(e: ForwardEntry<H>) -> (Option<Seq<char>>, u16) {
    (e.endpoint@, e.remote_port)
}

/// The local port and manual flag of a tunnel.
pub open spec fn entry_value<H>(e: ForwardEntry<H>) -> (u16, bool) {
    (e.forward.local_port, e.forward.manual)
}

/// Whether some entry of `s` has key `k`.
pub open spec fn has_key<H>(s: Seq<ForwardEntry<H>>, k: (Option<Seq<char>>, u16)) -> bool {
    exists|i: int| 0 <= i < s.len() && entry_key(#[trigger] s[i]) == k
}

/// No two entries share a key.
pub open spec fn keys_distinct<H>(s: Seq<ForwardEntry<H>>) -> bool {
    forall|i: int, j: int| 0 <= i < s.len() && 0 <= j < s.len() && i != j ==> entry_key(#[trigger] s[i]) != entry_key(#[trigger] s[j])
}

/// The map from keys to tunnels that a sequence of entries with distinct keys stands for.
pub open spec fn entries_map<H>(s: Seq<ForwardEntry<H>>) -> Map<(Option<Seq<char>>, u16), (u16, bool)> {
    Map::new(
        |k: (Option<Seq<char>>, u16)| has_key(s, k),
        |k: (Option<Seq<char>>, u16)| entry_value(s[choose|i: int| 0 <= i < s.len() && entry_key(#[trigger] s[i]) == k]),
    )
}

proof fn lemma_entries_map_at<H>(s: Seq<ForwardEntry<H>>, i: int)
    requires
        keys_distinct(s),
        0 <= i < s.len(),
    ensures
        entries_map(s).dom().contains(entry_key(s[i])),
        entries_map(s)[entry_key(s[i])] == entry_value(s[i]),
{
    let k = entry_key(s[i]);
    assert(has_key(s, k));
    let j = choose|j: int| 0 <= j < s.len() && entry_key(#[trigger] s[j]) == k;
    assert(j == i);
}

/// The tunnels a client keeps, keyed by machine and remote port.
pub struct PortForwards<H> {
    entries: Vec<ForwardEntry<H>>,
}

impl<H> PortForwards<H> {
    /// Each key occurs at most once.
    pub closed spec fn wf(&self) -> bool {
        keys_distinct(self.entries@)
    }

    /// The tunnels as a map from (machine, remote port) to (local port, manual).
    pub closed spec fn map(&self) -> Map<(Option<Seq<char>>, u16), (u16, bool)> {
        entries_map(self.entries@)
    }

    /// No tunnels.
    pub fn new() -> (t: Self)
        ensures
            t.wf(),
            t.map() == Map::<(Option<Seq<char>>, u16), (u16, bool)>::empty(),
    {
        let t = PortForwards { entries: Vec::new() };
        assert(t.map() =~= Map::<(Option<Seq<char>>, u16), (u16, bool)>::empty());
        t
    }

    /// The number of tunnels.
    pub fn len(&self) -> (n: usize)
        requires
            self.wf(),
        ensures
            n == self.map().len(),
    {
        proof {
            self.lemma_len();
        }
        self.entries.len()
    }

    proof fn lemma_len(&self)
        requires
            self.wf(),
        ensures
            self.map().dom().finite(),
            self.entries@.len() == self.map().len(),
        decreases self.entries@.len(),
    {
        let s = self.entries@;
        let keys = s.map_values(|e: ForwardEntry<H>| entry_key(e));
        assert(keys.no_duplicates()) by {
            assert forall|i: int, j: int| 0 <= i < keys.len() && 0 <= j < keys.len() && i != j implies keys[i] != keys[j] by {
                assert(entry_key(s[i]) != entry_key(s[j]));
            }
        }
        assert(self.map().dom() =~= keys.to_set()) by {
            assert forall|k| self.map().dom().contains(k) <==> keys.to_set().contains(k) by {
                if self.map().dom().contains(k) {
                    let i = choose|i: int| 0 <= i < s.len() && entry_key(#[trigger] s[i]) == k;
                    assert(keys[i] == k);
                }
                if keys.to_set().contains(k) {
                    let i = choose|i: int| 0 <= i < keys.len() && keys[i] == k;
                    assert(entry_key(s[i]) == k);
                }
            }
        }
        keys.unique_seq_to_set();
    }

    fn find(&self, endpoint: &ClientEndpointId, port: u16) -> (r: Option<usize>)
        requires
            self.wf(),
        ensures
            match r {
                Some(i) => i < self.entries.len() && entry_key(self.entries@[i as int]) == (endpoint@, port),
                None => !has_key(self.entries@, (endpoint@, port)),
            },
    {
        let mut i: usize = 0;
        while i < self.entries.len()
            invariant
                i <= self.entries.len(),
                forall|j: int| 0 <= j < i ==> entry_key(#[trigger] self.entries@[j]) != (endpoint@, port),
            decreases self.entries.len() - i,
        {
            if self.entries[i].remote_port == port && self.entries[i].endpoint.same_as(endpoint) {
                return Some(i);
            }
            i = i + 1;
        }
        None
    }

    /// The local port of the tunnel for `port` on `endpoint`, if there is one.
    pub fn local_port(&self, endpoint: &ClientEndpointId, port: u16) -> (r: Option<u16>)
        requires
            self.wf(),
        ensures
            r == (if self.map().dom().contains((endpoint@, port)) {
                Some(self.map()[(endpoint@, port)].0)
            } else {
                None
            }),
    {
        match self.find(endpoint, port) {
            Some(i) => {
                proof {
                    lemma_entries_map_at(self.entries@, i as int);
                }
                Some(self.entries[i].forward.local_port)
            },
            None => None,
        }
    }

    /// Adds the tunnel for `port` on `endpoint`, replacing any there was;
    /// the replaced one is handed back.
    pub fn insert(&mut self, endpoint: ClientEndpointId, port: u16, forward: PortForward<H>) -> (old_forward: Option<PortForward<H>>)
        requires
            old(self).wf(),
        ensures
            final(self).wf(),
            final(self).map() == old(self).map().insert((endpoint@, port), (forward.local_port, forward.manual)),
            old_forward is Some <==> old(self).map().dom().contains((endpoint@, port)),
    {
        let removed = self.remove(&endpoint, port);
        let ghost mid = self.entries@;
        let ghost v = (forward.local_port, forward.manual);
        self.entries.push(ForwardEntry { endpoint, remote_port: port, forward });
        proof {
            let k = (endpoint@, port);
            let s = self.entries@;
            assert(!entries_map(mid).dom().contains(k));
            assert(!has_key(mid, k));
            assert(s.drop_last() =~= mid);
            assert(keys_distinct(s)) by {
                assert forall|i: int, j: int| 0 <= i < s.len() && 0 <= j < s.len() && i != j implies entry_key(#[trigger] s[i]) != entry_key(#[trigger] s[j]) by {
                    if i < mid.len() && j < mid.len() {
                        assert(s[i] == mid[i] && s[j] == mid[j]);
                    } else if i < mid.len() {
                        assert(s[i] == mid[i]);
                    } else {
                        assert(s[j] == mid[j]);
                    }
                }
            }
            assert(entries_map(s) =~= entries_map(mid).insert(k, v)) by {
                assert forall|kk| entries_map(s).dom().contains(kk) <==> entries_map(mid).insert(k, v).dom().contains(kk) by {
                    if has_key(s, kk) && kk != k {
                        let i = choose|i: int| 0 <= i < s.len() && entry_key(#[trigger] s[i]) == kk;
                        assert(mid[i] == s[i]);
                    }
                    if has_key(mid, kk) {
                        let i = choose|i: int| 0 <= i < mid.len() && entry_key(#[trigger] mid[i]) == kk;
                        assert(mid[i] == s[i]);
                    }
                    if kk == k {
                        assert(entry_key(s[mid.len() as int]) == k);
                    }
                }
                assert forall|kk| #[trigger] entries_map(s).dom().contains(kk) implies entries_map(s)[kk] == entries_map(mid).insert(k, v)[kk] by {
                    let i = choose|i: int| 0 <= i < s.len() && entry_key(#[trigger] s[i]) == kk;
                    lemma_entries_map_at(s, i);
                    if i < mid.len() {
                        assert(mid[i] == s[i]);
                        lemma_entries_map_at(mid, i);
                    }
                }
            }
        }
        removed
    }

    /// Removes the tunnel for `port` on `endpoint` and hands it back, if there was one.
    pub fn remove(&mut self, endpoint: &ClientEndpointId, port: u16) -> (removed: Option<PortForward<H>>)
        requires
            old(self).wf(),
        ensures
            final(self).wf(),
            final(self).map() == old(self).map().remove((endpoint@, port)),
            removed is Some <==> old(self).map().dom().contains((endpoint@, port)),
            removed matches Some(f) ==> old(self).map()[(endpoint@, port)] == (f.local_port, f.manual),
    {
        match self.find(endpoint, port) {
            None => {
                assert(self.map() =~= self.map().remove((endpoint@, port)));
                None
            },
            Some(i) => {
                let ghost s0 = self.entries@;
                proof {
                    lemma_entries_map_at(s0, i as int);
                }
                let e = self.entries.remove(i);
                proof {
                    let k = (endpoint@, port);
                    let s = self.entries@;
                    assert(s =~= s0.remove(i as int));
                    assert(keys_distinct(s)) by {
                        assert forall|a: int, b: int| 0 <= a < s.len() && 0 <= b < s.len() && a != b implies entry_key(#[trigger] s[a]) != entry_key(#[trigger] s[b]) by {
                            let aa = if a < i { a } else { a + 1 };
                            let bb = if b < i { b } else { b + 1 };
                            assert(s[a] == s0[aa] && s[b] == s0[bb]);
                        }
                    }
                    assert(entries_map(s) =~= entries_map(s0).remove(k)) by {
                        assert forall|kk| entries_map(s).dom().contains(kk) <==> entries_map(s0).remove(k).dom().contains(kk) by {
                            if has_key(s, kk) {
                                let a = choose|a: int| 0 <= a < s.len() && entry_key(#[trigger] s[a]) == kk;
                                let aa = if a < i { a } else { a + 1 };
                                assert(s[a] == s0[aa]);
                            }
                            if has_key(s0, kk) && kk != k {
                                let a = choose|a: int| 0 <= a < s0.len() && entry_key(#[trigger] s0[a]) == kk;
                                assert(a != i);
                                let b = if a < i { a } else { a - 1 };
                                assert(s[b] == s0[a]);
                            }
                        }
                        assert forall|kk| #[trigger] entries_map(s).dom().contains(kk) implies entries_map(s)[kk] == entries_map(s0).remove(k)[kk] by {
                            let a = choose|a: int| 0 <= a < s.len() && entry_key(#[trigger] s[a]) == kk;
                            let aa = if a < i { a } else { a + 1 };
                            assert(s[a] == s0[aa]);
                            lemma_entries_map_at(s, a);
                            lemma_entries_map_at(s0, aa);
                        }
                    }
                }
                Some(e.forward)
            },
        }
    }

    /// Keeps the tunnels that are manual, belong to another machine than
    /// `endpoint`, or whose remote port is among `ports`; the others are
    /// dropped, and their handles with them.
    pub fn retain_listened(&mut self, endpoint: &ClientEndpointId, ports: &Vec<u16>)
        requires
            old(self).wf(),
        ensures
            final(self).wf(),
            final(self).map() == old(self).map().restrict(
                old(self).map().dom().filter(|k: (Option<Seq<char>>, u16)|
                    old(self).map()[k].1 || k.0 != endpoint@ || ports@.contains(k.1)),
            ),
    {
        let ghost m0 = self.map();
        let ghost s0 = self.entries@;
        let mut rest = Vec::new();
        std::mem::swap(&mut rest, &mut self.entries);
        let ghost keep = |k: (Option<Seq<char>>, u16)| m0[k].1 || k.0 != endpoint@ || ports@.contains(k.1);
        while rest.len() > 0
            invariant
                keys_distinct(s0),
                m0 == entries_map(s0),
                rest@ == s0.take(rest@.len() as int),
                rest@.len() <= s0.len(),
                keep == (|k: (Option<Seq<char>>, u16)| m0[k].1 || k.0 != endpoint@ || ports@.contains(k.1)),
                keys_distinct(self.entries@),
                forall|k| has_key(self.entries@, k) <==> (exists|i: int| rest@.len() <= i < s0.len() && entry_key(#[trigger] s0[i]) == k && keep(k)),
                forall|i: int| 0 <= i < self.entries@.len() ==> exists|j: int| rest@.len() <= j < s0.len() && #[trigger] self.entries@[i] == s0[j],
            decreases rest.len(),
        {
            let ghost n = rest@.len();
            let e = rest.pop().unwrap();
            proof {
                assert(e == s0[n - 1]);
                assert(rest@ =~= s0.take(n - 1));
                lemma_entries_map_at(s0, n - 1);
            }
            let mut listened = false;
            let mut j: usize = 0;
            while j < ports.len()
                invariant
                    j <= ports.len(),
                    listened == (exists|a: int| 0 <= a < j && ports@[a] == e.remote_port),
                decreases ports.len() - j,
            {
                if ports[j] == e.remote_port {
                    listened = true;
                }
                j = j + 1;
            }
            if e.forward.manual || !e.endpoint.same_as(endpoint) || listened {
                let ghost before = self.entries@;
                self.entries.push(e);
                proof {
                    let s = self.entries@;
                    assert(keep(entry_key(e)));
                    assert(keys_distinct(s)) by {
                        assert forall|a: int, b: int| 0 <= a < s.len() && 0 <= b < s.len() && a != b implies entry_key(#[trigger] s[a]) != entry_key(#[trigger] s[b]) by {
                            if a < before.len() && b < before.len() {
                                assert(s[a] == before[a] && s[b] == before[b]);
                            } else if a < before.len() {
                                assert(s[a] == before[a]);
                                let ja = choose|ja: int| n <= ja < s0.len() && #[trigger] before[a] == s0[ja];
                                assert(entry_key(s0[ja]) != entry_key(s0[n - 1]));
                            } else {
                                assert(s[b] == before[b]);
                                let jb = choose|jb: int| n <= jb < s0.len() && #[trigger] before[b] == s0[jb];
                                assert(entry_key(s0[jb]) != entry_key(s0[n - 1]));
                            }
                        }
                    }
                    assert forall|k| has_key(s, k) <==> (exists|i: int| n - 1 <= i < s0.len() && entry_key(#[trigger] s0[i]) == k && keep(k)) by {
                        if has_key(s, k) {
                            let a = choose|a: int| 0 <= a < s.len() && entry_key(#[trigger] s[a]) == k;
                            if a < before.len() {
                                assert(s[a] == before[a]);
                                assert(has_key(before, k));
                            } else {
                                assert(entry_key(s0[n - 1]) == k);
                            }
                        }
                        if exists|i: int| n - 1 <= i < s0.len() && entry_key(#[trigger] s0[i]) == k && keep(k) {
                            let i = choose|i: int| n - 1 <= i < s0.len() && entry_key(#[trigger] s0[i]) == k && keep(k);
                            if i == n - 1 {
                                assert(entry_key(s[before.len() as int]) == k);
                            } else {
                                assert(has_key(before, k));
                                let a = choose|a: int| 0 <= a < before.len() && entry_key(#[trigger] before[a]) == k;
                                assert(s[a] == before[a]);
                            }
                        }
                    }
                    assert forall|i: int| 0 <= i < s.len() implies exists|j: int| n - 1 <= j < s0.len() && #[trigger] s[i] == s0[j] by {
                        if i < before.len() {
                            assert(s[i] == before[i]);
                        } else {
                            assert(s[i] == s0[n - 1]);
                        }
                    }
                }
            } else {
                proof {
                    let s = self.entries@;
                    assert(!keep(entry_key(e))) by {
                        if ports@.contains(e.remote_port) {
                            let a = choose|a: int| 0 <= a < ports@.len() && ports@[a] == e.remote_port;
                        }
                    }
                    assert forall|k| has_key(s, k) <==> (exists|i: int| n - 1 <= i < s0.len() && entry_key(#[trigger] s0[i]) == k && keep(k)) by {
                        if exists|i: int| n - 1 <= i < s0.len() && entry_key(#[trigger] s0[i]) == k && keep(k) {
                            let i = choose|i: int| n - 1 <= i < s0.len() && entry_key(#[trigger] s0[i]) == k && keep(k);
                            if i == n - 1 {
                                assert(false);
                            }
                        }
                    }
                    assert forall|i: int| 0 <= i < s.len() implies exists|j: int| n - 1 <= j < s0.len() && #[trigger] s[i] == s0[j] by {
                        let j = choose|j: int| n <= j < s0.len() && #[trigger] s[i] == s0[j];
                    }
                }
                // The tunnel's handle is dropped here.
            }
        }
        proof {
            let s = self.entries@;
            let target = m0.restrict(m0.dom().filter(keep));
            assert(entries_map(s) =~= target) by {
                assert forall|k| entries_map(s).dom().contains(k) <==> target.dom().contains(k) by {
                    if has_key(s, k) {
                        let i = choose|i: int| 0 <= i < s0.len() && entry_key(#[trigger] s0[i]) == k && keep(k);
                        assert(has_key(s0, k));
                    }
                    if target.dom().contains(k) {
                        let i = choose|i: int| 0 <= i < s0.len() && entry_key(#[trigger] s0[i]) == k;
                        assert(keep(k));
                    }
                }
                assert forall|k| #[trigger] entries_map(s).dom().contains(k) implies entries_map(s)[k] == target[k] by {
                    let a = choose|a: int| 0 <= a < s.len() && entry_key(#[trigger] s[a]) == k;
                    let j = choose|j: int| 0 <= j < s0.len() && #[trigger] s[a] == s0[j];
                    lemma_entries_map_at(s, a);
                    lemma_entries_map_at(s0, j);
                }
            }
        }
    }

    /// The keys of all tunnels, in no particular order.
    pub fn keys(&self) -> (keys: Vec<(ClientEndpointId, u16)>)
        requires
            self.wf(),
        ensures
            keys@.len() == self.map().len(),
            forall|i: int| 0 <= i < keys@.len() ==> self.map().dom().contains((#[trigger] keys@[i].0@, keys@[i].1)),
            forall|k| #[trigger] self.map().dom().contains(k) ==> exists|i: int| 0 <= i < keys@.len() && (keys@[i].0@, keys@[i].1) == k,
    {
        proof {
            self.lemma_len();
        }
        let mut keys: Vec<(ClientEndpointId, u16)> = Vec::new();
        let mut i: usize = 0;
        while i < self.entries.len()
            invariant
                keys_distinct(self.entries@),
                i <= self.entries.len(),
                keys@.len() == i,
                forall|j: int| 0 <= j < i ==> (#[trigger] keys@[j].0@, keys@[j].1) == entry_key(self.entries@[j]),
            decreases self.entries.len() - i,
        {
            keys.push((self.entries[i].endpoint.duplicate(), self.entries[i].remote_port));
            i = i + 1;
        }
        proof {
            assert forall|j: int| 0 <= j < keys@.len() implies self.map().dom().contains((#[trigger] keys@[j].0@, keys@[j].1)) by {
                lemma_entries_map_at(self.entries@, j);
            }
            assert forall|k| #[trigger] self.map().dom().contains(k) implies exists|j: int| 0 <= j < keys@.len() && (keys@[j].0@, keys@[j].1) == k by {
                let j = choose|j: int| 0 <= j < self.entries@.len() && entry_key(#[trigger] self.entries@[j]) == k;
                assert((keys@[j].0@, keys@[j].1) == k);
            }
        }
        keys
    }

    /// The remote ports and local ports of the tunnels from `endpoint`, in no particular order.
    pub fn for_endpoint(&self, endpoint: &ClientEndpointId) -> (list: Vec<(u16, u16)>)
        requires
            self.wf(),
        ensures
            forall|i: int| 0 <= i < list@.len() ==> self.map().dom().contains((endpoint@, #[trigger] list@[i].0))
                && self.map()[(endpoint@, list@[i].0)].0 == list@[i].1,
            forall|p: u16| #[trigger] self.map().dom().contains((endpoint@, p)) ==> exists|i: int| 0 <= i < list@.len() && list@[i].0 == p,
            forall|i: int, j: int| 0 <= i < list@.len() && 0 <= j < list@.len() && i != j ==> #[trigger] list@[i].0 != #[trigger] list@[j].0,
    {
        let mut list: Vec<(u16, u16)> = Vec::new();
        let mut i: usize = 0;
        while i < self.entries.len()
            invariant
                keys_distinct(self.entries@),
                i <= self.entries.len(),
                forall|a: int| 0 <= a < list@.len() ==> exists|j: int| 0 <= j < i && entry_key(#[trigger] self.entries@[j]) == (endpoint@, (#[trigger] list@[a]).0)
                    && self.entries@[j].forward.local_port == list@[a].1,
                forall|j: int| 0 <= j < i && (#[trigger] self.entries@[j]).endpoint@ == endpoint@ ==> exists|a: int| 0 <= a < list@.len() && list@[a].0 == self.entries@[j].remote_port,
                forall|a: int, b: int| 0 <= a < list@.len() && 0 <= b < list@.len() && a != b ==> #[trigger] list@[a].0 != #[trigger] list@[b].0,
            decreases self.entries.len() - i,
        {
            if self.entries[i].endpoint.same_as(endpoint) {
                let ghost before = list@;
                let p = self.entries[i].remote_port;
                proof {
                    assert forall|a: int| 0 <= a < before.len() implies before[a].0 != p by {
                        let j = choose|j: int| 0 <= j < i && entry_key(#[trigger] self.entries@[j]) == (endpoint@, before[a].0)
                            && self.entries@[j].forward.local_port == before[a].1;
                        assert(entry_key(self.entries@[j]) != entry_key(self.entries@[i as int]));
                    }
                }
                list.push((p, self.entries[i].forward.local_port));
                proof {
                    assert forall|a: int| 0 <= a < list@.len() implies exists|j: int| 0 <= j < i + 1 && entry_key(#[trigger] self.entries@[j]) == (endpoint@, (#[trigger] list@[a]).0)
                        && self.entries@[j].forward.local_port == list@[a].1 by {
                        if a < before.len() {
                            assert(list@[a] == before[a]);
                        } else {
                            assert(entry_key(self.entries@[i as int]) == (endpoint@, list@[a].0));
                        }
                    }
                    assert forall|j: int| 0 <= j < i + 1 && (#[trigger] self.entries@[j]).endpoint@ == endpoint@ implies exists|a: int| 0 <= a < list@.len() && list@[a].0 == self.entries@[j].remote_port by {
                        if j < i {
                            let a = choose|a: int| 0 <= a < before.len() && before[a].0 == self.entries@[j].remote_port;
                            assert(list@[a] == before[a]);
                        } else {
                            assert(list@[before.len() as int].0 == p);
                        }
                    }
                }
            }
            i = i + 1;
        }
        proof {
            assert forall|a: int| 0 <= a < list@.len() implies self.map().dom().contains((endpoint@, #[trigger] list@[a].0))
                && self.map()[(endpoint@, list@[a].0)].0 == list@[a].1 by {
                let j = choose|j: int| 0 <= j < i && entry_key(#[trigger] self.entries@[j]) == (endpoint@, list@[a].0)
                    && self.entries@[j].forward.local_port == list@[a].1;
                lemma_entries_map_at(self.entries@, j);
            }
            assert forall|p: u16| #[trigger] self.map().dom().contains((endpoint@, p)) implies exists|a: int| 0 <= a < list@.len() && list@[a].0 == p by {
                let j = choose|j: int| 0 <= j < self.entries@.len() && entry_key(#[trigger] self.entries@[j]) == (endpoint@, p);
                assert(self.entries@[j].endpoint@ == endpoint@);
            }
        }
        list
    }
}

} // verus!
