//! Key-value store keyed by peer-identity bytes, with a `Map` view.
//!
//! Peer identities arrive as opaque byte strings; no hash-table key model is
//! assumed for them, so the store is a compact association list with
//! pairwise-distinct keys. Lookups are linear, which is fine for the handful
//! of machines an overlay like this coordinates.

use vstd::prelude::*;

verus! {

/// Store from peer-identity bytes to values of type `V`, abstracted as a
/// finite `Map<Seq<u8>, V>` with one entry per currently known peer.
pub struct PeerMap<V> {
    pub entries: Vec<(Vec<u8>, V)>,
}

/// The map described by an association list: later entries win, though a
/// well-formed `PeerMap` never holds a key twice.
pub open spec fn map_of<V>(s: Seq<(Vec<u8>, V)>) -> Map<Seq<u8>, V>
    decreases s.len(),
{
    if s.len() == 0 {
        Map::empty()
    } else {
        map_of(s.drop_last()).insert(s.last().0@, s.last().1)
    }
}

impl<V> View for PeerMap<V> {
    type V = Map<Seq<u8>, V>;

    open spec fn view(&self) -> Map<Seq<u8>, V> {
        map_of(self.entries@)
    }
}

/// No two entries carry the same key.
pub open spec fn distinct_keys<V>(s: Seq<(Vec<u8>, V)>) -> bool {
    forall|i: int, j: int| 0 <= i < j < s.len() ==> s[i].0@ != s[j].0@
}

/// A key occurs in the map iff some entry carries it.
pub proof fn lemma_map_of_contains<V>(s: Seq<(Vec<u8>, V)>, k: Seq<u8>)
    ensures
        map_of(s).dom().contains(k) <==> exists|i: int| 0 <= i < s.len() && s[i].0@ == k,
    decreases s.len(),
{
    if s.len() > 0 {
        lemma_map_of_contains(s.drop_last(), k);
        if map_of(s).dom().contains(k) {
            if k == s.last().0@ {
                assert(s[s.len() - 1].0@ == k);
            } else {
                let i = choose|i: int| 0 <= i < s.drop_last().len() && s.drop_last()[i].0@ == k;
                assert(s[i].0@ == k);
            }
        }
        if exists|i: int| 0 <= i < s.len() && s[i].0@ == k {
            let i = choose|i: int| 0 <= i < s.len() && s[i].0@ == k;
            if i < s.len() - 1 {
                assert(s.drop_last()[i].0@ == k);
            }
        }
    }
}

/// The map's domain is finite.
pub proof fn lemma_map_of_finite<V>(s: Seq<(Vec<u8>, V)>)
    ensures
        map_of(s).dom().finite(),
    decreases s.len(),
{
    if s.len() > 0 {
        lemma_map_of_finite(s.drop_last());
    }
}

/// With pairwise-distinct keys, every entry is in the map with its own value.
pub proof fn lemma_map_of_index<V>(s: Seq<(Vec<u8>, V)>)
    requires
        distinct_keys(s),
    ensures
        forall|i: int|
            0 <= i < s.len() ==> map_of(s).dom().contains(#[trigger] s[i].0@) && map_of(s)[s[i].0@]
                == s[i].1,
    decreases s.len(),
{
    if s.len() > 0 {
        assert(distinct_keys(s.drop_last()));
        lemma_map_of_index(s.drop_last());
        assert forall|i: int| 0 <= i < s.len() implies map_of(s).dom().contains(
            #[trigger] s[i].0@,
        ) && map_of(s)[s[i].0@] == s[i].1 by {
            if i < s.len() - 1 {
                assert(s.drop_last()[i] == s[i]);
                assert(s[i].0@ != s.last().0@);
            }
        }
    }
}

/// With pairwise-distinct keys, the map has exactly one entry per list entry.
pub proof fn lemma_map_of_len<V>(s: Seq<(Vec<u8>, V)>)
    requires
        distinct_keys(s),
    ensures
        map_of(s).dom().len() == s.len(),
    decreases s.len(),
{
    if s.len() > 0 {
        assert(distinct_keys(s.drop_last()));
        lemma_map_of_len(s.drop_last());
        lemma_map_of_finite(s.drop_last());
        lemma_map_of_contains(s.drop_last(), s.last().0@);
        assert(!map_of(s.drop_last()).dom().contains(s.last().0@));
    }
}

/// Byte-wise equality of two byte strings.
pub fn bytes_eq(a: &Vec<u8>, b: &Vec<u8>) -> (r: bool)
    ensures
        r == (a@ == b@),
{
    if a.len() != b.len() {
        return false;
    }
    let mut i: usize = 0;
    while i < a.len()
        invariant
            i <= a@.len(),
            a@.len() == b@.len(),
            forall|j: int| 0 <= j < i ==> a@[j] == b@[j],
        decreases a@.len() - i,
    {
        if a[i] != b[i] {
            return false;
        }
        i += 1;
    }
    proof {
        assert(a@ =~= b@);
    }
    true
}

impl<V> PeerMap<V> {
    /// Pairwise-distinct keys; established by `new` and kept by `insert`.
    pub open spec fn wf(&self) -> bool {
        distinct_keys(self.entries@)
    }

    /// An empty store.
    pub fn new() -> (r: Self)
        ensures
            r.wf(),
            r@ == Map::<Seq<u8>, V>::empty(),
    {
        PeerMap { entries: Vec::new() }
    }

    /// Whether a peer with these identity bytes is present.
    #[verifier::loop_isolation(false)]
    pub fn contains_key(&self, k: &Vec<u8>) -> (r: bool)
        ensures
            r == self@.dom().contains(k@),
    {
        proof {
            lemma_map_of_contains(self.entries@, k@);
        }
        let mut i: usize = 0;
        while i < self.entries.len()
            invariant
                i <= self.entries@.len(),
                forall|j: int| 0 <= j < i ==> self.entries@[j].0@ != k@,
            decreases self.entries@.len() - i,
        {
            if bytes_eq(&self.entries[i].0, k) {
                proof {
                    assert(self.entries@[i as int].0@ == k@);
                }
                return true;
            }
            i += 1;
        }
        false
    }

    /// The value recorded for these identity bytes, if any.
    #[verifier::loop_isolation(false)]
    pub fn get(&self, k: &Vec<u8>) -> (r: Option<&V>)
        requires
            self.wf(),
        ensures
            match r {
                Some(v) => self@.dom().contains(k@) && *v == self@[k@],
                None => !self@.dom().contains(k@),
            },
    {
        proof {
            lemma_map_of_contains(self.entries@, k@);
            lemma_map_of_index(self.entries@);
        }
        let mut i: usize = 0;
        while i < self.entries.len()
            invariant
                i <= self.entries@.len(),
                forall|j: int| 0 <= j < i ==> self.entries@[j].0@ != k@,
            decreases self.entries@.len() - i,
        {
            if bytes_eq(&self.entries[i].0, k) {
                proof {
                    assert(self.entries@[i as int].0@ == k@);
                }
                return Some(&self.entries[i].1);
            }
            i += 1;
        }
        None
    }

    /// Records `v` under `k`, overwriting any prior value for the same peer.
    /// The entry list changes by exactly one slot: the slot already carrying
    /// `k` for a known peer, a fresh slot at the end otherwise.
    #[verifier::loop_isolation(false)]
    pub fn insert(&mut self, k: Vec<u8>, v: V)
        requires
            old(self).wf(),
        ensures
            final(self).wf(),
            final(self)@ == old(self)@.insert(k@, v),
            old(self)@.dom().contains(k@) ==> exists|i: int|
                0 <= i < old(self).entries@.len() && old(self).entries@[i].0@ == k@
                    && final(self).entries@ == old(self).entries@.update(i, ((k, v))),
            !old(self)@.dom().contains(k@) ==> final(self).entries@ == old(self).entries@.push(
                ((k, v)),
            ),
    {
        let ghost s0 = self.entries@;
        let mut i: usize = 0;
        while i < self.entries.len()
            invariant
                self.entries@ == s0,
                i <= s0.len(),
                forall|j: int| 0 <= j < i ==> s0[j].0@ != k@,
            decreases s0.len() - i,
        {
            if bytes_eq(&self.entries[i].0, &k) {
                proof {
                    assert(s0[i as int].0@ == k@);
                    lemma_map_of_contains(s0, k@);
                }
                self.entries[i] = (k, v);
                proof {
                    let e = self.entries@[i as int];
                    assert(e.0@ == s0[i as int].0@);
                    lemma_map_of_update(s0, i as int, e);
                    assert(self.entries@ =~= s0.update(i as int, e));
                }
                return;
            }
            i += 1;
        }
        proof {
            lemma_map_of_contains(s0, k@);
        }
        self.entries.push((k, v));
        proof {
            assert(self.entries@.drop_last() =~= s0);
            assert(distinct_keys(self.entries@));
            assert(self@ =~= map_of(s0).insert(self.entries@.last().0@, v));
            assert(self.entries@ =~= s0.push(self.entries@.last()));
        }
    }

    /// How many peers are recorded.
    pub fn len(&self) -> (r: usize)
        requires
            self.wf(),
        ensures
            r == self.entries@.len(),
            r == self@.dom().len(),
    {
        proof {
            lemma_map_of_len(self.entries@);
        }
        self.entries.len()
    }
}

/// Replacing the entry at `i` with one that carries the same key updates
/// exactly that key's value.
proof fn lemma_map_of_update<V>(s: Seq<(Vec<u8>, V)>, i: int, e: (Vec<u8>, V))
    requires
        distinct_keys(s),
        0 <= i < s.len(),
        e.0@ == s[i].0@,
    ensures
        map_of(s.update(i, e)) =~= map_of(s).insert(e.0@, e.1),
        distinct_keys(s.update(i, e)),
    decreases s.len(),
{
    let su = s.update(i, e);
    assert(distinct_keys(su));
    if i == s.len() - 1 {
        assert(su.drop_last() =~= s.drop_last());
        assert(su.last() == e);
        assert(map_of(su) =~= map_of(s).insert(e.0@, e.1));
    } else {
        assert(distinct_keys(s.drop_last()));
        assert(s.drop_last()[i] == s[i]);
        lemma_map_of_update(s.drop_last(), i, e);
        assert(su.drop_last() =~= s.drop_last().update(i, e));
        assert(su.last() == s.last());
        assert(e.0@ != s.last().0@);
        assert(map_of(su) =~= map_of(s).insert(e.0@, e.1));
    }
}

} // verus!
