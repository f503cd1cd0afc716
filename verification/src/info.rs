//! The environment's shared-info dictionary, modeled as an
//! insertion-ordered list of key-value byte strings with unique keys — the
//! shape the host's mapping type has. A request's shared-info patch is
//! merged into it key-wise: an existing key's value is overwritten in
//! place, a new key is appended; the merge happens before the response is
//! encoded, so the response reflects the patched state.

use vstd::prelude::*;
use crate::codec::pairs_view;

verus! {

/// The mathematical content of an entry list: later entries override
/// earlier ones (with unique keys the case never arises).
pub open spec fn map_of(ps: Seq<(Seq<u8>, Seq<u8>)>) -> Map<Seq<u8>, Seq<u8>>
    decreases ps.len(),
{
    if ps.len() == 0 {
        Map::empty()
    } else {
        map_of(ps.drop_last()).insert(ps.last().0, ps.last().1)
    }
}

/// Keys of the entry list are pairwise distinct.
pub open spec fn keys_unique(ps: Seq<(Seq<u8>, Seq<u8>)>) -> bool {
    forall|i: int, j: int| 0 <= i < j < ps.len() ==> (#[trigger] ps[i]).0 != (#[trigger] ps[j]).0
}

/// A key is in the map exactly when some entry carries it, and the map
/// gives that entry's value when keys are unique.
pub proof fn lemma_map_of_entries(ps: Seq<(Seq<u8>, Seq<u8>)>, k: Seq<u8>)
    ensures
        map_of(ps).contains_key(k) <==> exists|i: int| 0 <= i < ps.len() && (#[trigger] ps[i]).0
            == k,
        keys_unique(ps) ==> forall|i: int|
            0 <= i < ps.len() && (#[trigger] ps[i]).0 == k ==> map_of(ps).contains_key(k)
                && map_of(ps)[k] == ps[i].1,
    decreases ps.len(),
{
    if ps.len() > 0 {
        lemma_map_of_entries(ps.drop_last(), k);
        if map_of(ps).contains_key(k) {
            if ps.last().0 == k {
                assert(ps[ps.len() - 1].0 == k);
            }
        }
        if exists|i: int| 0 <= i < ps.len() && (#[trigger] ps[i]).0 == k {
            let i = choose|i: int| 0 <= i < ps.len() && (#[trigger] ps[i]).0 == k;
            if i < ps.len() - 1 {
                assert(ps.drop_last()[i].0 == k);
            }
        }
        if keys_unique(ps) {
            assert(keys_unique(ps.drop_last())) by {
                assert(forall|i: int, j: int|
                    0 <= i < j < ps.drop_last().len() ==> (#[trigger] ps.drop_last()[i]).0 != (
                    #[trigger] ps.drop_last()[j]).0);
            }
            assert forall|i: int|
                0 <= i < ps.len() && (#[trigger] ps[i]).0 == k implies map_of(ps).contains_key(k)
                && map_of(ps)[k] == ps[i].1 by {
                if i < ps.len() - 1 {
                    assert(ps.drop_last()[i].0 == k);
                    assert(ps.last().0 != k);
                }
            }
        }
    }
}

/// Overwriting the entry that carries a key updates the map at that key.
pub proof fn lemma_map_of_update(ps: Seq<(Seq<u8>, Seq<u8>)>, i: int, k: Seq<u8>, v: Seq<u8>)
    requires
        keys_unique(ps),
        0 <= i < ps.len(),
        ps[i].0 == k,
    ensures
        map_of(ps.update(i, (k, v))) == map_of(ps).insert(k, v),
    decreases ps.len(),
{
    let q = ps.update(i, (k, v));
    if i == ps.len() - 1 {
        assert(q.drop_last() =~= ps.drop_last());
        assert(q.last() == (k, v));
        assert(map_of(ps).insert(k, v) =~= map_of(ps.drop_last()).insert(k, v));
    } else {
        assert(q.drop_last() =~= ps.drop_last().update(i, (k, v)));
        assert(keys_unique(ps.drop_last())) by {
            assert(forall|a: int, b: int|
                0 <= a < b < ps.drop_last().len() ==> (#[trigger] ps.drop_last()[a]).0 != (
                #[trigger] ps.drop_last()[b]).0);
        }
        assert(ps.drop_last()[i].0 == k);
        lemma_map_of_update(ps.drop_last(), i, k, v);
        assert(q.last() == ps.last());
        assert(ps.last().0 != k);
        assert(map_of(ps.drop_last()).insert(k, v).insert(ps.last().0, ps.last().1) =~= map_of(
            ps.drop_last(),
        ).insert(ps.last().0, ps.last().1).insert(k, v));
    }
}

/// Appending an entry with a fresh key inserts it into the map.
pub proof fn lemma_map_of_push(ps: Seq<(Seq<u8>, Seq<u8>)>, k: Seq<u8>, v: Seq<u8>)
    ensures
        map_of(ps.push((k, v))) == map_of(ps).insert(k, v),
{
    assert(ps.push((k, v)).drop_last() =~= ps);
}

/// Tests two byte strings for equality.
pub fn bytes_eq(a: &Vec<u8>, b: &Vec<u8>) -> (r: bool)
    ensures
        r <==> a@ == b@,
{
    if a.len() != b.len() {
        return false;
    }
    let n = a.len();
    let mut i: usize = 0;
    while i < n
        invariant
            n == a.len() == b.len(),
            0 <= i <= n,
            forall|j: int| 0 <= j < i ==> a@[j] == b@[j],
        decreases n - i,
    {
        if a[i] != b[i] {
            return false;
        }
        i = i + 1;
    }
    proof {
        assert(a@ =~= b@);
    }
    true
}

/// The shared-info dictionary: entries in insertion order, keys unique.
#[derive(Debug, Clone, PartialEq, Eq)]
pub struct InfoMap {
    pub entries: Vec<(Vec<u8>, Vec<u8>)>,
}

impl InfoMap {
    /// Unique keys — what the host's mapping type guarantees of itself.
    pub open spec fn wf(&self) -> bool {
        keys_unique(pairs_view(self.entries@))
    }

    /// The mapping this dictionary denotes.
    pub open spec fn as_map(&self) -> Map<Seq<u8>, Seq<u8>> {
        map_of(pairs_view(self.entries@))
    }

    /// An empty dictionary.
    pub fn new() -> (r: InfoMap)
        ensures
            r.wf(),
            r.as_map() == Map::<Seq<u8>, Seq<u8>>::empty(),
            r.entries@.len() == 0,
    {
        proof {
            assert(pairs_view(Seq::<(Vec<u8>, Vec<u8>)>::empty()) =~= Seq::<
                (Seq<u8>, Seq<u8>),
            >::empty());
        }
        InfoMap { entries: Vec::new() }
    }

    /// Looks a key up; returns its value exactly when the mapping holds
    /// the key.
    pub fn get(&self, key: &Vec<u8>) -> (r: Option<Vec<u8>>)
        requires
            self.wf(),
        ensures
            r is Some <==> self.as_map().contains_key(key@),
            r is Some ==> r.unwrap()@ == self.as_map()[key@],
    {
        let ghost ps = pairs_view(self.entries@);
        proof {
            lemma_map_of_entries(ps, key@);
        }
        let n = self.entries.len();
        let mut i: usize = 0;
        while i < n
            invariant
                n == self.entries.len(),
                ps == pairs_view(self.entries@),
                keys_unique(ps),
                0 <= i <= n,
                forall|j: int| 0 <= j < i ==> (#[trigger] ps[j]).0 != key@,
            decreases n - i,
        {
            if bytes_eq(&self.entries[i].0, key) {
                proof {
                    let ei = self.entries@[i as int];
                    assert(ps[i as int] == (ei.0@, ei.1@));
                    lemma_map_of_entries(ps, key@);
                }
                return Some(crate::codec::copy_bytes(&self.entries[i].1));
            }
            proof {
                assert(ps[i as int] == (self.entries@[i as int].0@, self.entries@[i as int].1@));
            }
            i = i + 1;
        }
        proof {
            lemma_map_of_entries(ps, key@);
        }
        None
    }

    /// Inserts a key-value pair: overwrites the value in place when the
    /// key exists, appends the entry when it does not.
    pub fn insert(&mut self, key: Vec<u8>, value: Vec<u8>)
        requires
            old(self).wf(),
        ensures
            final(self).wf(),
            final(self).as_map() == old(self).as_map().insert(key@, value@),
    {
        let ghost ps = pairs_view(self.entries@);
        let n = self.entries.len();
        let mut i: usize = 0;
        while i < n
            invariant
                *self == *old(self),
                n == self.entries.len(),
                ps == pairs_view(self.entries@),
                keys_unique(ps),
                0 <= i <= n,
                forall|j: int| 0 <= j < i ==> (#[trigger] ps[j]).0 != key@,
            decreases n - i,
        {
            if bytes_eq(&self.entries[i].0, &key) {
                proof {
                    let ei = self.entries@[i as int];
                    assert(ps[i as int] == (ei.0@, ei.1@));
                    lemma_map_of_update(ps, i as int, key@, value@);
                }
                self.entries.set(i, (key, value));
                proof {
                    assert(pairs_view(self.entries@) =~= ps.update(i as int, (key@, value@)));
                    assert(keys_unique(pairs_view(self.entries@)));
                }
                return ;
            }
            proof {
                assert(ps[i as int] == (self.entries@[i as int].0@, self.entries@[i as int].1@));
            }
            i = i + 1;
        }
        proof {
            lemma_map_of_push(ps, key@, value@);
        }
        self.entries.push((key, value));
        proof {
            assert(pairs_view(self.entries@) =~= ps.push((key@, value@)));
            assert(keys_unique(pairs_view(self.entries@)));
        }
    }

    /// Merges a decoded patch into the dictionary, key-wise, in patch
    /// order: every patched key ends at the patch's value (its last one,
    /// should the patch repeat a key), every other key keeps its value.
    /// This runs before the response is encoded.
    pub fn merge(&mut self, patch: &Vec<(Vec<u8>, Vec<u8>)>)
        requires
            old(self).wf(),
        ensures
            final(self).wf(),
            final(self).as_map() == old(self).as_map().union_prefer_right(
                map_of(pairs_view(patch@)),
            ),
    {
        let ghost pv = pairs_view(patch@);
        let n = patch.len();
        let mut i: usize = 0;
        proof {
            assert(pv.take(0) =~= Seq::<(Seq<u8>, Seq<u8>)>::empty());
            assert(self.as_map() =~= self.as_map().union_prefer_right(map_of(pv.take(0))));
        }
        while i < n
            invariant
                n == patch.len(),
                pv == pairs_view(patch@),
                0 <= i <= n,
                self.wf(),
                self.as_map() == old(self).as_map().union_prefer_right(map_of(pv.take(i as int))),
            decreases n - i,
        {
            let k = crate::codec::copy_bytes(&patch[i].0);
            let v = crate::codec::copy_bytes(&patch[i].1);
            proof {
                assert(pv.take(i + 1).drop_last() =~= pv.take(i as int));
                assert(pv.take(i + 1).last() == (k@, v@));
                assert(old(self).as_map().union_prefer_right(
                    map_of(pv.take(i as int)),
                ).insert(k@, v@) =~= old(self).as_map().union_prefer_right(
                    map_of(pv.take(i as int)).insert(k@, v@),
                ));
            }
            self.insert(k, v);
            i = i + 1;
        }
        proof {
            assert(pv.take(n as int) =~= pv);
        }
    }
}

} // verus!
