use std::collections::{HashMap, HashSet};
use vstd::prelude::*;
use crate::id::{fresh_id, ListenerId};
use crate::emission::views;
use crate::listener::Listener;

verus! {

broadcast use vstd::std_specs::hash::group_hash_axioms;

/// The listeners of one event kind, in the order they were registered.
struct Bucket<H> {
    kind: String,
    entries: Vec<(u128, Listener<H>)>,
}

/// The listeners of one kind after the one at position `j` is removed; a
/// kind left without listeners disappears.
pub open spec fn drop_at<H>(
    m: Map<Seq<char>, Seq<(u128, Listener<H>)>>,
    k: Seq<char>,
    j: int,
) -> Map<Seq<char>, Seq<(u128, Listener<H>)>> {
    if m[k].len() == 1 {
        m.remove(k)
    } else {
        m.insert(k, m[k].remove(j))
    }
}

/// The store of listeners: each event kind maps to its listeners, and a
/// reverse index maps each listener id to its kind.
///
/// Every id the registry has ever handed out is remembered, so that no id
/// is issued twice, also after the listener was removed or the registry
/// cleared.
pub struct ListenerRegistry<H> {
    buckets: Vec<Bucket<H>>,
    links: HashMap<u128, String>,
    issued: HashSet<u128>,
    model: Ghost<Map<Seq<char>, Seq<(u128, Listener<H>)>>>,
}

impl<H> ListenerRegistry<H> {
    /// Each kind that has listeners, with its listeners as (id, listener)
    /// pairs in registration order.
    pub closed spec fn listeners(&self) -> Map<Seq<char>, Seq<(u128, Listener<H>)>> {
        self.model@
    }

    /// The reverse index: the kind of each registered listener id.
    pub closed spec fn links(&self) -> Map<u128, Seq<char>> {
        self.links@.map_values(|s: String| s@)
    }

    /// Every id this registry has handed out.
    pub closed spec fn issued(&self) -> Set<u128> {
        self.issued@
    }

    /// The listeners of kind `k`; none where the kind has no entry.
    pub open spec fn entries(&self, k: Seq<char>) -> Seq<(u128, Listener<H>)> {
        if self.listeners().contains_key(k) {
            self.listeners()[k]
        } else {
            Seq::empty()
        }
    }

    /// The listeners that an emission to kind `k` reaches, in order.
    pub open spec fn targets(&self, k: Seq<char>) -> Seq<Listener<H>> {
        self.entries(k).map_values(|e: (u128, Listener<H>)| e.1)
    }

    /// The listeners that an emission to each of `kinds` in turn reaches;
    /// a listener is reached once for each listed kind it is registered
    /// under.
    pub open spec fn gather(&self, kinds: Seq<Seq<char>>) -> Seq<Listener<H>>
        decreases kinds.len(),
    {
        if kinds.len() == 0 {
            Seq::empty()
        } else {
            self.gather(kinds.drop_last()) + self.targets(kinds.last())
        }
    }

    /// `later` still counts every id issued here as issued, and each id
    /// registered in `later` is registered here too or was never issued
    /// here. Every operation moves the registry along this relation.
    pub open spec fn evolves_to(&self, later: Self) -> bool {
        &&& self.issued().subset_of(later.issued())
        &&& forall|id: u128| #[trigger]
            later.links().contains_key(id) ==> self.links().contains_key(id) || !self.issued().contains(id)
    }

    /// The ids of the listeners of kind `k`.
    pub open spec fn ids_of(&self, k: Seq<char>) -> Set<u128> {
        self.entries(k).map_values(|e: (u128, Listener<H>)| e.0).to_set()
    }

    /// The kinds that have listeners, in the order the registry keeps them.
    pub closed spec fn kind_order(&self) -> Seq<Seq<char>> {
        self.buckets@.map_values(|b: Bucket<H>| b.kind@)
    }

    spec fn kind_at(&self, i: int) -> Seq<char> {
        self.buckets@[i].kind@
    }

    /// The two indices agree, no kind is listed without listeners, ids are
    /// unique, and every registered id counts as issued.
    pub closed spec fn wf(&self) -> bool {
        let m = self.model@;
        &&& self.issued@.finite()
        &&& forall|i: int, j: int|
            0 <= i < self.buckets.len() && 0 <= j < self.buckets.len() && i != j
                ==> #[trigger] self.kind_at(i) != #[trigger] self.kind_at(j)
        &&& forall|i: int|
            0 <= i < self.buckets.len() ==> {
                &&& m.contains_key(#[trigger] self.kind_at(i))
                &&& m[self.kind_at(i)] == self.buckets@[i].entries@
                &&& self.buckets@[i].entries@.len() > 0
            }
        &&& forall|k: Seq<char>|
            #[trigger] m.contains_key(k) ==> exists|i: int|
                0 <= i < self.buckets.len() && #[trigger] self.kind_at(i) == k
        &&& forall|k: Seq<char>, j: int|
            m.contains_key(k) && 0 <= j < m[k].len() ==> {
                &&& self.links@.contains_key(#[trigger] m[k][j].0)
                &&& self.links@[m[k][j].0]@ == k
            }
        &&& forall|id: u128|
            #[trigger] self.links@.contains_key(id) ==> {
                &&& m.contains_key(self.links@[id]@)
                &&& self.issued@.contains(id)
                &&& exists|j: int|
                    0 <= j < m[self.links@[id]@].len() && #[trigger] m[self.links@[id]@][j].0 == id
            }
        &&& forall|k: Seq<char>, j1: int, j2: int|
            m.contains_key(k) && 0 <= j1 < m[k].len() && 0 <= j2 < m[k].len() && j1 != j2
                ==> #[trigger] m[k][j1].0 != #[trigger] m[k][j2].0
    }

    pub fn new() -> (r: Self)
        ensures
            r.wf(),
            r.listeners() == Map::<Seq<char>, Seq<(u128, Listener<H>)>>::empty(),
            r.links() == Map::<u128, Seq<char>>::empty(),
            r.issued() == Set::<u128>::empty(),
    {
        let r = ListenerRegistry {
            buckets: Vec::new(),
            links: HashMap::new(),
            issued: HashSet::new(),
            model: Ghost(Map::empty()),
        };
        assert(r.links() =~= Map::<u128, Seq<char>>::empty());
        r
    }

    /// The position of the bucket of `kind`, if the kind has listeners.
    fn find_bucket(&self, kind: &String) -> (r: Option<usize>)
        requires
            self.wf(),
        ensures
            match r {
                Some(i) => i < self.buckets.len() && self.kind_at(i as int) == kind@,
                None => !self.listeners().contains_key(kind@),
            },
    {
        let mut i: usize = 0;
        while i < self.buckets.len()
            invariant
                self.wf(),
                i <= self.buckets.len(),
                forall|p: int| 0 <= p < i ==> self.kind_at(p) != kind@,
            decreases self.buckets.len() - i,
        {
            if self.buckets[i].kind == *kind {
                return Some(i);
            }
            i = i + 1;
        }
        None
    }
    /// Whether kind `kind` has at least one listener.
    pub fn has_listeners(&self, kind: &str) -> (r: bool)
        requires
            self.wf(),
        ensures
            r == self.listeners().contains_key(kind@),
            r == (self.entries(kind@).len() > 0),
    {
        proof {
            self.lemma_shape();
        }
        let key = kind.to_owned();
        self.find_bucket(&key).is_some()
    }

    /// The number of listeners of kind `kind`.
    pub fn listeners_count(&self, kind: &str) -> (r: usize)
        requires
            self.wf(),
        ensures
            r == self.entries(kind@).len(),
            r == self.ids_of(kind@).len(),
    {
        proof {
            self.lemma_shape();
        }
        let key = kind.to_owned();
        match self.find_bucket(&key) {
            Some(i) => self.buckets[i].entries.len(),
            None => 0,
        }
    }

    /// Every kind that has listeners, each once.
    pub fn list_event_kinds(&self) -> (r: Vec<String>)
        requires
            self.wf(),
        ensures
            forall|i: int| 0 <= i < r.len() ==> self.listeners().contains_key(#[trigger] r@[i]@),
            forall|k: Seq<char>|
                self.listeners().contains_key(k) ==> exists|i: int|
                    0 <= i < r.len() && #[trigger] r@[i]@ == k,
            forall|i: int, j: int| 0 <= i < j < r.len() ==> #[trigger] r@[i]@ != #[trigger] r@[j]@,
            views(r@) == self.kind_order(),
            r.len() == self.listeners().dom().len(),
    {
        let mut r: Vec<String> = Vec::new();
        let mut i: usize = 0;
        while i < self.buckets.len()
            invariant
                self.wf(),
                i <= self.buckets.len(),
                r.len() == i,
                forall|p: int| 0 <= p < i ==> #[trigger] r@[p]@ == self.kind_at(p),
            decreases self.buckets.len() - i,
        {
            r.push(self.buckets[i].kind.clone());
            i = i + 1;
        }
        assert forall|k: Seq<char>| self.listeners().contains_key(k) implies exists|p: int|
            0 <= p < r.len() && #[trigger] r@[p]@ == k by {
            let p = choose|p: int| 0 <= p < self.buckets.len() && #[trigger] self.kind_at(p) == k;
            assert(r@[p]@ == k);
        }
        assert forall|p: int, q: int| 0 <= p < q < r.len() implies #[trigger] r@[p]@ != #[trigger] r@[q]@ by {
            assert(self.kind_at(p) != self.kind_at(q));
        }
        assert forall|p: int| 0 <= p < r.len() implies self.listeners().contains_key(#[trigger] r@[p]@) by {
            assert(self.listeners().contains_key(self.kind_at(p)));
        }
        assert(views(r@) =~= self.kind_order());
        proof {
            let vs = views(r@);
            assert(vs.no_duplicates()) by {
                assert forall|p: int, q: int| 0 <= p < vs.len() && 0 <= q < vs.len() && p != q implies vs[p] != vs[q] by {
                    if p < q {
                        assert(r@[p]@ != r@[q]@);
                    } else {
                        assert(r@[q]@ != r@[p]@);
                    }
                }
            }
            assert(vs.to_set() =~= self.listeners().dom()) by {
                assert forall|k: Seq<char>| vs.to_set().contains(k) implies self.listeners().contains_key(k) by {
                    let p = choose|p: int| 0 <= p < vs.len() && vs[p] == k;
                    assert(r@[p]@ == k);
                }
                assert forall|k: Seq<char>| self.listeners().contains_key(k) implies vs.to_set().contains(k) by {
                    let p = choose|p: int| 0 <= p < r.len() && #[trigger] r@[p]@ == k;
                    assert(vs[p] == k);
                }
            }
            vs.unique_seq_to_set();
        }
        r
    }

    /// Copies of the listeners of kind `kind`, to be invoked after the
    /// registry is released.
    pub fn snapshot(&self, kind: &str) -> (r: Vec<Listener<H>>)
        requires
            self.wf(),
        ensures
            r@ == self.targets(kind@),
    {
        let key = kind.to_owned();
        let mut r: Vec<Listener<H>> = Vec::new();
        match self.find_bucket(&key) {
            None => {},
            Some(b) => {
                let entries = &self.buckets[b].entries;
                let mut j: usize = 0;
                while j < entries.len()
                    invariant
                        j <= entries.len(),
                        r.len() == j,
                        forall|p: int| 0 <= p < j ==> #[trigger] r@[p] == entries@[p].1,
                    decreases entries.len() - j,
                {
                    r.push(entries[j].1.clone());
                    j = j + 1;
                }
            },
        }
        assert(r@ =~= self.targets(kind@));
        r
    }

    /// Copies of the listeners of each of `kinds` in turn.
    pub fn snapshot_kinds(&self, kinds: &Vec<String>) -> (r: Vec<Listener<H>>)
        requires
            self.wf(),
        ensures
            r@ == self.gather(views(kinds@)),
    {
        let mut r: Vec<Listener<H>> = Vec::new();
        let mut i: usize = 0;
        while i < kinds.len()
            invariant
                self.wf(),
                i <= kinds.len(),
                r@ == self.gather(views(kinds@.subrange(0, i as int))),
            decreases kinds.len() - i,
        {
            let mut part = self.snapshot(kinds[i].as_str());
            r.append(&mut part);
            proof {
                let next = views(kinds@.subrange(0, i + 1));
                assert(next.drop_last() =~= views(kinds@.subrange(0, i as int)));
                assert(next.last() == kinds@[i as int]@);
            }
            i = i + 1;
        }
        assert(kinds@.subrange(0, kinds.len() as int) =~= kinds@);
        r
    }

    /// Removes every listener. Issued ids stay issued.
    pub fn clear(&mut self)
        requires
            old(self).wf(),
        ensures
            final(self).wf(),
            old(self).evolves_to(*final(self)),
            final(self).listeners() == Map::<Seq<char>, Seq<(u128, Listener<H>)>>::empty(),
            final(self).links() == Map::<u128, Seq<char>>::empty(),
            final(self).issued() == old(self).issued(),
    {
        self.buckets.clear();
        self.links.clear();
        self.model = Ghost(Map::empty());
        assert(self.links() =~= Map::<u128, Seq<char>>::empty());
    }
    /// Registers `listener` under `kind` and returns its new id, which was
    /// never issued before.
    pub fn register_listener(&mut self, kind: &str, listener: Listener<H>) -> (id: ListenerId)
        requires
            old(self).wf(),
        ensures
            final(self).wf(),
            old(self).evolves_to(*final(self)),
            !old(self).issued().contains(id@),
            final(self).issued() == old(self).issued().insert(id@),
            final(self).listeners() == old(self).listeners().insert(
                kind@,
                old(self).entries(kind@).push((id@, listener)),
            ),
            final(self).links() == old(self).links().insert(id@, kind@),
    {
        let raw = fresh_id(&self.issued);
        let key = kind.to_owned();
        let ghost m0 = self.model@;
        let ghost b0 = self.buckets@;
        assert(!self.links@.contains_key(raw));
        let ghost new_entries = self.entries(kind@).push((raw, listener));
        let ghost mut pos: int = 0;
        match self.find_bucket(&key) {
            Some(i) => {
                let mut b = self.buckets.remove(i);
                b.entries.push((raw, listener));
                self.buckets.insert(i, b);
                assert(self.buckets@ =~= b0.update(i as int, b));
                proof {
                    pos = i as int;
                }
            },
            None => {
                let mut entries: Vec<(u128, Listener<H>)> = Vec::new();
                entries.push((raw, listener));
                self.buckets.push(Bucket { kind: key.clone(), entries });
                proof {
                    pos = b0.len() as int;
                }
            },
        }
        assert(0 <= pos < self.buckets.len());
        assert(self.kind_at(pos) == kind@);
        assert(self.buckets@[pos].entries@ == new_entries);
        assert(forall|p: int| 0 <= p < self.buckets.len() && p != pos ==> p < b0.len() && #[trigger] self.buckets@[p] == b0[p]);
        assert(m0.contains_key(kind@) ==> pos < b0.len());
        assert(!m0.contains_key(kind@) ==> self.buckets.len() == b0.len() + 1);
        self.links.insert(raw, key);
        self.issued.insert(raw);
        self.model = Ghost(m0.insert(kind@, self.entries(kind@).push((raw, listener))));
        proof {
            let m = self.model@;
            assert forall|i: int, j: int|
                0 <= i < self.buckets.len() && 0 <= j < self.buckets.len() && i != j
                implies #[trigger] self.kind_at(i) != #[trigger] self.kind_at(j) by {
                if i != pos && j != pos {
                    assert(self.buckets@[i] == b0[i] && self.buckets@[j] == b0[j]);
                    assert(old(self).kind_at(i) != old(self).kind_at(j));
                } else if i != pos {
                    assert(self.buckets@[i] == b0[i]);
                    assert(m0.contains_key(old(self).kind_at(i)));
                    if pos < b0.len() {
                        assert(old(self).kind_at(i) != old(self).kind_at(pos));
                    }
                } else {
                    assert(self.buckets@[j] == b0[j]);
                    assert(m0.contains_key(old(self).kind_at(j)));
                    if pos < b0.len() {
                        assert(old(self).kind_at(j) != old(self).kind_at(pos));
                    }
                }
            }
            assert forall|i: int| 0 <= i < self.buckets.len() implies {
                &&& m.contains_key(#[trigger] self.kind_at(i))
                &&& m[self.kind_at(i)] == self.buckets@[i].entries@
                &&& self.buckets@[i].entries@.len() > 0
            } by {
                if i != pos {
                    assert(self.buckets@[i] == b0[i]);
                    assert(m0.contains_key(old(self).kind_at(i)));
                    if pos < b0.len() {
                        assert(old(self).kind_at(i) != old(self).kind_at(pos));
                    }
                    assert(self.kind_at(i) != kind@);
                }
            }
            assert forall|k: Seq<char>| #[trigger] m.contains_key(k) implies exists|i: int|
                0 <= i < self.buckets.len() && #[trigger] self.kind_at(i) == k by {
                if k == kind@ {
                    assert(self.kind_at(pos) == k);
                } else {
                    let i = choose|i: int| 0 <= i < b0.len() && old(self).kind_at(i) == k;
                    if i == pos {
                        assert(old(self).kind_at(pos) == kind@);
                    }
                    assert(self.buckets@[i] == b0[i]);
                    assert(self.kind_at(i) == k);
                }
            }
            assert forall|k: Seq<char>, j: int| m.contains_key(k) && 0 <= j < m[k].len() implies {
                &&& self.links@.contains_key(#[trigger] m[k][j].0)
                &&& self.links@[m[k][j].0]@ == k
            } by {
                if k == kind@ && j == m[k].len() - 1 {
                } else {
                    assert(m0.contains_key(k) && m[k][j] == m0[k][j]);
                }
            }
            assert forall|id: u128| #[trigger] self.links@.contains_key(id) implies {
                &&& m.contains_key(self.links@[id]@)
                &&& self.issued@.contains(id)
                &&& exists|j: int|
                    0 <= j < m[self.links@[id]@].len() && #[trigger] m[self.links@[id]@][j].0 == id
            } by {
                if id == raw {
                    let j = m[kind@].len() - 1;
                    assert(m[kind@][j].0 == id);
                } else {
                    let k = self.links@[id]@;
                    let j = choose|j: int| 0 <= j < m0[k].len() && #[trigger] m0[k][j].0 == id;
                    assert(m[k][j] == m0[k][j]);
                }
            }
            assert forall|k: Seq<char>, j1: int, j2: int|
                m.contains_key(k) && 0 <= j1 < m[k].len() && 0 <= j2 < m[k].len() && j1 != j2
                implies #[trigger] m[k][j1].0 != #[trigger] m[k][j2].0 by {
                if k == kind@ {
                    let last = m[k].len() - 1;
                    if j1 == last {
                        assert(self.links@.contains_key(m0[k][j2].0));
                    } else if j2 == last {
                        assert(self.links@.contains_key(m0[k][j1].0));
                    }
                }
            }
            assert(self.links() =~= old(self).links().insert(raw, kind@));
        }
        ListenerId::from_u128(raw)
    }
    /// Removes the listener with id `id`. Returns whether it was registered;
    /// removing an unknown or already removed id changes nothing.
    pub fn remove_listener(&mut self, id: ListenerId) -> (r: bool)
        requires
            old(self).wf(),
        ensures
            final(self).wf(),
            old(self).evolves_to(*final(self)),
            r == old(self).links().contains_key(id@),
            final(self).links() == old(self).links().remove(id@),
            final(self).issued() == old(self).issued(),
            !r ==> final(self).listeners() == old(self).listeners(),
            r ==> exists|j: int|
                0 <= j < old(self).entries(old(self).links()[id@]).len()
                    && #[trigger] old(self).entries(old(self).links()[id@])[j].0 == id@
                    && final(self).listeners() == drop_at(
                    old(self).listeners(),
                    old(self).links()[id@],
                    j,
                ),
    {
        let raw = id.as_u128();
        let ghost m0 = self.model@;
        let ghost b0 = self.buckets@;
        let kind = match self.links.get(&raw) {
            None => {
                assert(self.links() =~= old(self).links().remove(raw));
                return false;
            },
            Some(k) => k.clone(),
        };
        let ghost k = kind@;
        let i = match self.find_bucket(&kind) {
            Some(i) => i,
            None => {
                proof {
                    assert(false);
                }
                return false;
            },
        };
        let ghost e0 = m0[k];
        assert(b0[i as int].entries@ == e0);
        let mut b = self.buckets.remove(i);
        let mut j: usize = 0;
        while j < b.entries.len() && b.entries[j].0 != raw
            invariant
                b.entries@ == e0,
                j <= b.entries.len(),
                forall|p: int| 0 <= p < j ==> #[trigger] b.entries@[p].0 != raw,
            decreases b.entries.len() - j,
        {
            j = j + 1;
        }
        assert(j < e0.len() && e0[j as int].0 == raw) by {
            let w = choose|w: int| 0 <= w < m0[k].len() && #[trigger] m0[k][w].0 == raw;
            assert(e0[w].0 == raw);
        }
        b.entries.remove(j);
        self.links.remove(&raw);
        let ghost e1 = e0.remove(j as int);
        assert(b.entries@ == e1);
        assert(forall|p: int| 0 <= p < e1.len() ==> #[trigger] e1[p] == e0[if p < j { p } else { p + 1 }]);
        assert(forall|p: int| 0 <= p < e1.len() ==> (#[trigger] e1[p]).0 != raw);
        if b.entries.len() > 0 {
            self.buckets.insert(i, b);
            self.model = Ghost(m0.insert(k, e1));
            assert(self.buckets@ =~= b0.update(i as int, b));
            proof {
                let m = self.model@;
                assert(forall|p: int| 0 <= p < self.buckets.len() ==> #[trigger] self.kind_at(p) == old(self).kind_at(p));
                assert forall|p: int| 0 <= p < self.buckets.len() implies {
                    &&& m.contains_key(#[trigger] self.kind_at(p))
                    &&& m[self.kind_at(p)] == self.buckets@[p].entries@
                    &&& self.buckets@[p].entries@.len() > 0
                } by {
                    assert(self.kind_at(p) == old(self).kind_at(p));
                    if p != i {
                        assert(old(self).kind_at(p) != old(self).kind_at(i as int));
                    }
                }
                assert forall|k2: Seq<char>| #[trigger] m.contains_key(k2) implies exists|p: int|
                    0 <= p < self.buckets.len() && #[trigger] self.kind_at(p) == k2 by {
                    assert(m0.contains_key(k2));
                    let p = choose|p: int| 0 <= p < b0.len() && #[trigger] old(self).kind_at(p) == k2;
                    assert(self.kind_at(p) == k2);
                }
                assert forall|k2: Seq<char>, q: int| m.contains_key(k2) && 0 <= q < m[k2].len() implies {
                    &&& self.links@.contains_key(#[trigger] m[k2][q].0)
                    &&& self.links@[m[k2][q].0]@ == k2
                } by {
                    if k2 == k {
                        let q0 = if q < j { q } else { q + 1 };
                        assert(m[k2][q] == m0[k][q0]);
                        assert(old(self).links@.contains_key(m0[k][q0].0));
                    } else {
                        assert(m[k2][q] == m0[k2][q]);
                        assert(old(self).links@.contains_key(m0[k2][q].0));
                    }
                }
                assert forall|id2: u128| #[trigger] self.links@.contains_key(id2) implies {
                    &&& m.contains_key(self.links@[id2]@)
                    &&& self.issued@.contains(id2)
                    &&& exists|q: int|
                        0 <= q < m[self.links@[id2]@].len() && #[trigger] m[self.links@[id2]@][q].0 == id2
                } by {
                    assert(old(self).links@.contains_key(id2));
                    let k2 = self.links@[id2]@;
                    let q0 = choose|q: int| 0 <= q < m0[k2].len() && #[trigger] m0[k2][q].0 == id2;
                    if k2 == k {
                        assert(q0 != j);
                        let q = if q0 < j { q0 } else { q0 - 1 };
                        assert(m[k2][q] == m0[k2][q0]);
                    } else {
                        assert(m[k2][q0] == m0[k2][q0]);
                    }
                }
                assert forall|k2: Seq<char>, q1: int, q2: int|
                    m.contains_key(k2) && 0 <= q1 < m[k2].len() && 0 <= q2 < m[k2].len() && q1 != q2
                    implies #[trigger] m[k2][q1].0 != #[trigger] m[k2][q2].0 by {
                    if k2 == k {
                        let a = if q1 < j { q1 } else { q1 + 1 };
                        let c = if q2 < j { q2 } else { q2 + 1 };
                        assert(m[k2][q1] == m0[k][a] && m[k2][q2] == m0[k][c]);
                    }
                }
                assert(m == drop_at(m0, k, j as int));
            }
        } else {
            self.model = Ghost(m0.remove(k));
            proof {
                let m = self.model@;
                assert(e0.len() == 1);
                assert(forall|p: int| 0 <= p < self.buckets.len() ==> #[trigger] self.kind_at(p) == old(self).kind_at(if p < i { p } else { p + 1 }));
                assert forall|p1: int, p2: int|
                    0 <= p1 < self.buckets.len() && 0 <= p2 < self.buckets.len() && p1 != p2
                    implies #[trigger] self.kind_at(p1) != #[trigger] self.kind_at(p2) by {
                    let a = if p1 < i { p1 } else { p1 + 1 };
                    let c = if p2 < i { p2 } else { p2 + 1 };
                    assert(old(self).kind_at(a) != old(self).kind_at(c));
                }
                assert forall|p: int| 0 <= p < self.buckets.len() implies {
                    &&& m.contains_key(#[trigger] self.kind_at(p))
                    &&& m[self.kind_at(p)] == self.buckets@[p].entries@
                    &&& self.buckets@[p].entries@.len() > 0
                } by {
                    let a = if p < i { p } else { p + 1 };
                    assert(self.buckets@[p] == b0[a]);
                    assert(old(self).kind_at(a) != old(self).kind_at(i as int));
                    assert(m0.contains_key(old(self).kind_at(a)));
                }
                assert forall|k2: Seq<char>| #[trigger] m.contains_key(k2) implies exists|p: int|
                    0 <= p < self.buckets.len() && #[trigger] self.kind_at(p) == k2 by {
                    assert(m0.contains_key(k2));
                    let a = choose|a: int| 0 <= a < b0.len() && #[trigger] old(self).kind_at(a) == k2;
                    assert(a != i);
                    let p = if a < i { a } else { a - 1 };
                    assert(self.kind_at(p) == k2);
                }
                assert forall|k2: Seq<char>, q: int| m.contains_key(k2) && 0 <= q < m[k2].len() implies {
                    &&& self.links@.contains_key(#[trigger] m[k2][q].0)
                    &&& self.links@[m[k2][q].0]@ == k2
                } by {
                    assert(m[k2][q] == m0[k2][q]);
                    assert(old(self).links@.contains_key(m0[k2][q].0));
                }
                assert forall|id2: u128| #[trigger] self.links@.contains_key(id2) implies {
                    &&& m.contains_key(self.links@[id2]@)
                    &&& self.issued@.contains(id2)
                    &&& exists|q: int|
                        0 <= q < m[self.links@[id2]@].len() && #[trigger] m[self.links@[id2]@][q].0 == id2
                } by {
                    assert(old(self).links@.contains_key(id2));
                    let k2 = self.links@[id2]@;
                    let q0 = choose|q: int| 0 <= q < m0[k2].len() && #[trigger] m0[k2][q].0 == id2;
                    if k2 == k {
                        assert(q0 == 0 && j == 0);
                    }
                    assert(m[k2][q0] == m0[k2][q0]);
                }
                assert(m == drop_at(m0, k, j as int));
            }
        }
        assert(self.links() =~= old(self).links().remove(raw));
        assert(old(self).links()[raw] == k);
        assert(old(self).entries(k)[j as int].0 == raw);
        assert(self.listeners() == drop_at(old(self).listeners(), k, j as int));
        true
    }
    /// Removes every listener of kind `kind` and returns how many there were.
    pub fn remove_listeners_by_kind(&mut self, kind: &str) -> (r: usize)
        requires
            old(self).wf(),
        ensures
            final(self).wf(),
            old(self).evolves_to(*final(self)),
            r == old(self).entries(kind@).len(),
            final(self).listeners() == old(self).listeners().remove(kind@),
            final(self).links() == old(self).links().remove_keys(old(self).ids_of(kind@)),
            final(self).issued() == old(self).issued(),
    {
        let key = kind.to_owned();
        let ghost k = kind@;
        let ghost m0 = self.model@;
        let ghost b0 = self.buckets@;
        let ghost gone = old(self).ids_of(k);
        let i = match self.find_bucket(&key) {
            None => {
                assert(self.links() =~= old(self).links().remove_keys(gone));
                assert(self.listeners() =~= old(self).listeners().remove(k));
                return 0;
            },
            Some(i) => i,
        };
        let ghost e0 = m0[k];
        let b = self.buckets.remove(i);
        assert(b.entries@ == e0);
        let n = b.entries.len();
        let mut t: usize = 0;
        while t < n
            invariant
                old(self).wf(),
                i < b0.len(),
                self.buckets@ == b0.remove(i as int),
                self.issued@ == old(self).issued@,
                self.model@ == m0,
                b.entries@ == e0,
                n == e0.len(),
                t <= n,
                forall|id: u128|
                    #[trigger] self.links@.contains_key(id) <==> (old(self).links@.contains_key(id)
                        && !(exists|p: int| 0 <= p < t && e0[p].0 == id)),
                forall|id: u128|
                    #[trigger] self.links@.contains_key(id) ==> self.links@[id] == old(self).links@[id],
            decreases n - t,
        {
            let id = b.entries[t].0;
            self.links.remove(&id);
            proof {
                assert forall|x: u128|
                    #[trigger] self.links@.contains_key(x) <==> (old(self).links@.contains_key(x)
                        && !(exists|p: int| 0 <= p < t + 1 && e0[p].0 == x)) by {
                    if x != id && (exists|p: int| 0 <= p < t + 1 && e0[p].0 == x) {
                        let p = choose|p: int| 0 <= p < t + 1 && e0[p].0 == x;
                        assert(p < t);
                    }
                }
            }
            t = t + 1;
        }
        self.model = Ghost(m0.remove(k));
        proof {
            let m = self.model@;
            let ids = e0.map_values(|e: (u128, Listener<H>)| e.0);
            assert(forall|p: int| 0 <= p < self.buckets.len() ==> #[trigger] self.kind_at(p) == old(self).kind_at(if p < i { p } else { p + 1 }));
            assert forall|p1: int, p2: int|
                0 <= p1 < self.buckets.len() && 0 <= p2 < self.buckets.len() && p1 != p2
                implies #[trigger] self.kind_at(p1) != #[trigger] self.kind_at(p2) by {
                let a = if p1 < i { p1 } else { p1 + 1 };
                let c = if p2 < i { p2 } else { p2 + 1 };
                assert(old(self).kind_at(a) != old(self).kind_at(c));
            }
            assert forall|p: int| 0 <= p < self.buckets.len() implies {
                &&& m.contains_key(#[trigger] self.kind_at(p))
                &&& m[self.kind_at(p)] == self.buckets@[p].entries@
                &&& self.buckets@[p].entries@.len() > 0
            } by {
                let a = if p < i { p } else { p + 1 };
                assert(self.buckets@[p] == b0[a]);
                assert(old(self).kind_at(a) != old(self).kind_at(i as int));
                assert(m0.contains_key(old(self).kind_at(a)));
            }
            assert forall|k2: Seq<char>| #[trigger] m.contains_key(k2) implies exists|p: int|
                0 <= p < self.buckets.len() && #[trigger] self.kind_at(p) == k2 by {
                assert(m0.contains_key(k2));
                let a = choose|a: int| 0 <= a < b0.len() && #[trigger] old(self).kind_at(a) == k2;
                assert(a != i);
                let p = if a < i { a } else { a - 1 };
                assert(self.kind_at(p) == k2);
            }
            assert forall|k2: Seq<char>, q: int| m.contains_key(k2) && 0 <= q < m[k2].len() implies {
                &&& self.links@.contains_key(#[trigger] m[k2][q].0)
                &&& self.links@[m[k2][q].0]@ == k2
            } by {
                let x = m0[k2][q].0;
                assert(old(self).links@.contains_key(x));
                if exists|p: int| 0 <= p < n && e0[p].0 == x {
                    let p = choose|p: int| 0 <= p < n && e0[p].0 == x;
                    assert(old(self).links@.contains_key(m0[k][p].0));
                }
            }
            assert forall|id2: u128| #[trigger] self.links@.contains_key(id2) implies {
                &&& m.contains_key(self.links@[id2]@)
                &&& self.issued@.contains(id2)
                &&& exists|q: int|
                    0 <= q < m[self.links@[id2]@].len() && #[trigger] m[self.links@[id2]@][q].0 == id2
            } by {
                assert(old(self).links@.contains_key(id2));
                let k2 = self.links@[id2]@;
                let q0 = choose|q: int| 0 <= q < m0[k2].len() && #[trigger] m0[k2][q].0 == id2;
                if k2 == k {
                    assert(e0[q0].0 == id2);
                }
                assert(m[k2][q0] == m0[k2][q0]);
            }
            assert forall|x: u128| gone.contains(x) <==> (exists|p: int| 0 <= p < n && e0[p].0 == x) by {
                if gone.contains(x) {
                    assert(ids.contains(x));
                    let p = choose|p: int| 0 <= p < ids.len() && ids[p] == x;
                    assert(e0[p].0 == x);
                }
                if exists|p: int| 0 <= p < n && e0[p].0 == x {
                    let p = choose|p: int| 0 <= p < n && e0[p].0 == x;
                    assert(ids[p] == x);
                }
            }
            assert(self.links() =~= old(self).links().remove_keys(gone));
            assert(self.listeners() =~= old(self).listeners().remove(k));
        }
        n
    }
    /// The kinds kept in order are exactly the kinds with listeners.
    pub proof fn lemma_kind_order_listed(&self)
        requires
            self.wf(),
        ensures
            forall|i: int| 0 <= i < self.kind_order().len() ==> self.listeners().contains_key(#[trigger] self.kind_order()[i]),
            forall|k: Seq<char>| #[trigger] self.listeners().contains_key(k) ==> exists|i: int|
                0 <= i < self.kind_order().len() && self.kind_order()[i] == k,
    {
        assert forall|i: int| 0 <= i < self.kind_order().len() implies self.listeners().contains_key(#[trigger] self.kind_order()[i]) by {
            assert(self.kind_order()[i] == self.kind_at(i));
        }
        assert forall|k: Seq<char>| #[trigger] self.listeners().contains_key(k) implies exists|i: int|
            0 <= i < self.kind_order().len() && self.kind_order()[i] == k by {
            let i = choose|i: int| 0 <= i < self.buckets.len() && #[trigger] self.kind_at(i) == k;
            assert(self.kind_order()[i] == k);
        }
    }

    /// Every registered id counts as issued.
    pub proof fn lemma_registered_issued(&self)
        requires
            self.wf(),
        ensures
            forall|id: u128| #[trigger] self.links().contains_key(id) ==> self.issued().contains(id),
    {
        assert forall|id: u128| #[trigger] self.links().contains_key(id) implies self.issued().contains(id) by {
            assert(self.links@.contains_key(id));
        }
    }

    /// Every listed kind has listeners, ids are unique within a kind, and
    /// the ids of a kind are exactly those the reverse index maps to it.
    pub proof fn lemma_shape(&self)
        requires
            self.wf(),
        ensures
            forall|k: Seq<char>| #[trigger] self.listeners().contains_key(k) ==> self.listeners()[k].len() > 0,
            forall|k: Seq<char>, j1: int, j2: int|
                0 <= j1 < self.entries(k).len() && 0 <= j2 < self.entries(k).len() && j1 != j2
                    ==> #[trigger] self.entries(k)[j1].0 != #[trigger] self.entries(k)[j2].0,
            forall|k: Seq<char>, id: u128| #[trigger]
                self.ids_of(k).contains(id) <==> (self.links().contains_key(id) && self.links()[id] == k),
            forall|k: Seq<char>| #[trigger] self.ids_of(k).len() == self.entries(k).len(),
    {
        self.lemma_links_agree();
        assert forall|k: Seq<char>| #[trigger] self.listeners().contains_key(k) implies self.listeners()[k].len() > 0 by {
            let i = choose|i: int| 0 <= i < self.buckets.len() && #[trigger] self.kind_at(i) == k;
        }
        assert forall|k: Seq<char>| #[trigger] self.ids_of(k).len() == self.entries(k).len() by {
            let ids = self.entries(k).map_values(|e: (u128, Listener<H>)| e.0);
            assert(ids.no_duplicates()) by {
                assert forall|p: int, q: int| 0 <= p < ids.len() && 0 <= q < ids.len() && p != q implies ids[p] != ids[q] by {
                    assert(self.model@[k][p].0 != self.model@[k][q].0);
                }
            }
            ids.unique_seq_to_set();
        }
    }

    /// Each registered id is listed under its kind, and each listed id maps
    /// back to its kind.
    pub proof fn lemma_links_agree(&self)
        requires
            self.wf(),
        ensures
            forall|id: u128| #[trigger]
                self.links().contains_key(id) ==> self.ids_of(self.links()[id]).contains(id),
            forall|k: Seq<char>, id: u128| #[trigger]
                self.ids_of(k).contains(id) ==> self.links().contains_key(id) && self.links()[id] == k,
    {
        assert forall|id: u128| #[trigger] self.links().contains_key(id) implies self.ids_of(self.links()[id]).contains(id) by {
            let k = self.links@[id]@;
            let j = choose|j: int| 0 <= j < self.model@[k].len() && #[trigger] self.model@[k][j].0 == id;
            let ids = self.entries(k).map_values(|e: (u128, Listener<H>)| e.0);
            assert(ids[j] == id);
            assert(ids.contains(id));
        }
        assert forall|k: Seq<char>, id: u128| #[trigger] self.ids_of(k).contains(id) implies self.links().contains_key(id)
            && self.links()[id] == k by {
            let ids = self.entries(k).map_values(|e: (u128, Listener<H>)| e.0);
            assert(ids.contains(id));
            let j = choose|j: int| 0 <= j < ids.len() && ids[j] == id;
            assert(self.model@[k][j].0 == id);
        }
    }
}

} // verus!
