//! A map keyed by federation identifier, kept as a vector in ascending key
//! order. It stands where an ordered tree map would: no key occurs twice and
//! the keys come out in byte-wise order.

use crate::federation::{
    id_lt, lemma_id_lt_irreflexive, lemma_id_lt_total, lemma_id_lt_transitive, FederationId,
};
use vstd::prelude::*;

verus! {

/// One key with its value.
pub struct Entry<V> {
    pub id: FederationId,
    pub value: V,
}

/// Keys strictly ascending from the front to the back.
pub open spec fn ascending<V>(s: Seq<Entry<V>>) -> bool {
    forall|i: int, j: int| 0 <= i < j < s.len() ==> id_lt(#[trigger] s[i].id@, #[trigger] s[j].id@)
}

/// Whether some entry of `s` has the key `k`.
pub open spec fn has_key<V>(s: Seq<Entry<V>>, k: Seq<u8>) -> bool {
    exists|i: int| 0 <= i < s.len() && (#[trigger] s[i]).id@ == k
}

/// An index at which `s` holds the key `k`, where there is one.
pub open spec fn position<V>(s: Seq<Entry<V>>, k: Seq<u8>) -> int {
    choose|i: int| 0 <= i < s.len() && (#[trigger] s[i]).id@ == k
}

/// The map that a sequence of entries stands for.
pub open spec fn as_map<V>(s: Seq<Entry<V>>) -> Map<Seq<u8>, V> {
    Map::new(|k: Seq<u8>| has_key(s, k), |k: Seq<u8>| s[position(s, k)].value)
}

/// The keys of a sequence of entries, in its order.
pub open spec fn key_seq<V>(s: Seq<Entry<V>>) -> Seq<Seq<u8>> {
    Seq::new(s.len(), |i: int| s[i].id@)
}

/// Whether a sequence of keys is strictly ascending.
pub open spec fn keys_ascending(keys: Seq<Seq<u8>>) -> bool {
    forall|i: int, j: int| 0 <= i < j < keys.len() ==> id_lt(#[trigger] keys[i], #[trigger] keys[j])
}

/// In an ascending sequence a key stands at one index only.
proof fn lemma_one_position<V>(s: Seq<Entry<V>>, i: int, j: int)
    requires
        ascending(s),
        0 <= i < s.len(),
        0 <= j < s.len(),
        s[i].id@ == s[j].id@,
    ensures
        i == j,
{
    lemma_id_lt_irreflexive(s[i].id@);
}

/// In an ascending sequence the map holds at each key the value beside it.
proof fn lemma_map_at<V>(s: Seq<Entry<V>>, i: int)
    requires
        ascending(s),
        0 <= i < s.len(),
    ensures
        as_map(s).contains_key(s[i].id@),
        as_map(s)[s[i].id@] == s[i].value,
{
    assert(has_key(s, s[i].id@));
    lemma_one_position(s, i, position(s, s[i].id@));
}

/// Putting a new key at its place keeps the order and adds it to the map.
proof fn lemma_insert_new<V>(s: Seq<Entry<V>>, at: int, e: Entry<V>)
    requires
        ascending(s),
        0 <= at <= s.len(),
        forall|j: int| 0 <= j < at ==> id_lt(#[trigger] s[j].id@, e.id@),
        forall|j: int| at <= j < s.len() ==> id_lt(e.id@, #[trigger] s[j].id@),
    ensures
        ascending(s.insert(at, e)),
        as_map(s.insert(at, e)) == as_map(s).insert(e.id@, e.value),
{
    let t = s.insert(at, e);
    assert forall|i: int, j: int| 0 <= i < j < t.len() implies id_lt(
        #[trigger] t[i].id@,
        #[trigger] t[j].id@,
    ) by {
        if i < at && j > at {
            assert(t[i] == s[i]);
            assert(t[j] == s[j - 1]);
        } else if i < at && j < at {
            assert(t[i] == s[i]);
            assert(t[j] == s[j]);
        } else if i > at {
            assert(t[i] == s[i - 1]);
            assert(t[j] == s[j - 1]);
        } else if i == at {
            assert(t[j] == s[j - 1]);
        } else {
            assert(t[i] == s[i]);
        }
    }
    assert forall|k: Seq<u8>| has_key(t, k) <==> (k == e.id@ || has_key(s, k)) by {
        if has_key(t, k) {
            let i = position(t, k);
            if i < at {
                assert(t[i] == s[i]);
            } else if i > at {
                assert(t[i] == s[i - 1]);
            }
        }
        if k == e.id@ {
            assert(t[at].id@ == k);
        }
        if has_key(s, k) {
            let i = position(s, k);
            if i < at {
                assert(t[i] == s[i]);
            } else {
                assert(t[i + 1] == s[i]);
            }
        }
    }
    assert forall|k: Seq<u8>| has_key(t, k) implies #[trigger] as_map(t)[k] == as_map(s).insert(
        e.id@,
        e.value,
    )[k] by {
        let i = position(t, k);
        lemma_map_at(t, i);
        if i < at {
            assert(t[i] == s[i]);
            lemma_map_at(s, i);
            lemma_id_lt_irreflexive(k);
        } else if i > at {
            assert(t[i] == s[i - 1]);
            lemma_map_at(s, i - 1);
            lemma_id_lt_irreflexive(k);
        }
    }
    assert(as_map(t) =~= as_map(s).insert(e.id@, e.value));
}

/// Replacing the value beside a key keeps the order and updates the map.
proof fn lemma_replace<V>(s: Seq<Entry<V>>, at: int, e: Entry<V>)
    requires
        ascending(s),
        0 <= at < s.len(),
        s[at].id@ == e.id@,
    ensures
        ascending(s.update(at, e)),
        as_map(s.update(at, e)) == as_map(s).insert(e.id@, e.value),
{
    let t = s.update(at, e);
    assert forall|i: int, j: int| 0 <= i < j < t.len() implies id_lt(
        #[trigger] t[i].id@,
        #[trigger] t[j].id@,
    ) by {
        assert(t[i].id@ == s[i].id@);
        assert(t[j].id@ == s[j].id@);
    }
    assert forall|k: Seq<u8>| has_key(t, k) <==> has_key(s, k) by {
        if has_key(t, k) {
            let i = position(t, k);
            assert(s[i].id@ == k);
        }
        if has_key(s, k) {
            let i = position(s, k);
            assert(t[i].id@ == k);
        }
    }
    assert(has_key(s, e.id@));
    assert forall|k: Seq<u8>| has_key(t, k) implies #[trigger] as_map(t)[k] == as_map(s).insert(
        e.id@,
        e.value,
    )[k] by {
        let i = position(t, k);
        lemma_map_at(t, i);
        if i != at {
            assert(t[i] == s[i]);
            lemma_map_at(s, i);
            lemma_one_position(s, i, i);
            if k == e.id@ {
                lemma_one_position(s, i, at);
            }
        }
    }
    assert(as_map(t) =~= as_map(s).insert(e.id@, e.value));
}

/// Taking an entry out keeps the order and removes its key from the map.
proof fn lemma_remove<V>(s: Seq<Entry<V>>, at: int)
    requires
        ascending(s),
        0 <= at < s.len(),
    ensures
        ascending(s.remove(at)),
        as_map(s.remove(at)) == as_map(s).remove(s[at].id@),
{
    let t = s.remove(at);
    assert forall|i: int, j: int| 0 <= i < j < t.len() implies id_lt(
        #[trigger] t[i].id@,
        #[trigger] t[j].id@,
    ) by {
        let si = if i < at {
            i
        } else {
            i + 1
        };
        let sj = if j < at {
            j
        } else {
            j + 1
        };
        assert(t[i] == s[si]);
        assert(t[j] == s[sj]);
    }
    assert forall|k: Seq<u8>| has_key(t, k) <==> (k != s[at].id@ && has_key(s, k)) by {
        if has_key(t, k) {
            let i = position(t, k);
            let si = if i < at {
                i
            } else {
                i + 1
            };
            assert(t[i] == s[si]);
            if k == s[at].id@ {
                lemma_one_position(s, si, at);
            }
        }
        if k != s[at].id@ && has_key(s, k) {
            let i = position(s, k);
            if i < at {
                assert(t[i] == s[i]);
            } else {
                assert(t[i - 1] == s[i]);
            }
        }
    }
    assert forall|k: Seq<u8>| has_key(t, k) implies #[trigger] as_map(t)[k] == as_map(s).remove(
        s[at].id@,
    )[k] by {
        let i = position(t, k);
        lemma_map_at(t, i);
        let si = if i < at {
            i
        } else {
            i + 1
        };
        assert(t[i] == s[si]);
        lemma_map_at(s, si);
    }
    assert(as_map(t) =~= as_map(s).remove(s[at].id@));
}

/// A map from federation identifier to `V`, in ascending key order.
pub struct IdMap<V> {
    entries: Vec<Entry<V>>,
}

impl<V> View for IdMap<V> {
    type V = Map<Seq<u8>, V>;

    closed spec fn view(&self) -> Map<Seq<u8>, V> {
        as_map(self.entries@)
    }
}

impl<V> IdMap<V> {
    /// The representation is sound: the keys are strictly ascending.
    pub closed spec fn wf(&self) -> bool {
        ascending(self.entries@)
    }

    /// The keys in the order in which the map lists them.
    pub closed spec fn keys(&self) -> Seq<Seq<u8>> {
        key_seq(self.entries@)
    }

    /// The listed keys are strictly ascending, are exactly the keys of the
    /// map, and are 32 bytes each.
    pub proof fn lemma_keys(&self)
        requires
            self.wf(),
        ensures
            keys_ascending(self.keys()),
            forall|k: Seq<u8>| self@.contains_key(k) <==> self.keys().contains(k),
            forall|i: int| 0 <= i < self.keys().len() ==> (#[trigger] self.keys()[i]).len() == 32,
            self.keys().no_duplicates(),
    {
        let s = self.entries@;
        let keys = self.keys();
        assert forall|k: Seq<u8>| self@.contains_key(k) <==> keys.contains(k) by {
            if self@.contains_key(k) {
                let i = position(s, k);
                assert(keys[i] == k);
            }
            if keys.contains(k) {
                let i = choose|i: int| 0 <= i < keys.len() && keys[i] == k;
                assert(s[i].id@ == k);
            }
        }
        assert forall|i: int, j: int| 0 <= i < keys.len() && 0 <= j < keys.len() && i != j implies keys[i]
            != keys[j] by {
            if keys[i] == keys[j] {
                lemma_one_position(s, i, j);
            }
        }
    }

    /// An empty map.
    pub fn new() -> (m: Self)
        ensures
            m.wf(),
            m@ == Map::<Seq<u8>, V>::empty(),
            m.keys() == Seq::<Seq<u8>>::empty(),
    {
        let m = IdMap { entries: Vec::new() };
        assert(m@ =~= Map::<Seq<u8>, V>::empty());
        assert(m.keys() =~= Seq::<Seq<u8>>::empty());
        m
    }

    /// The number of keys.
    pub fn len(&self) -> (n: usize)
        ensures
            n == self.keys().len(),
    {
        self.entries.len()
    }

    /// The key at place `i` of the ascending order.
    pub fn key_at(&self, i: usize) -> (id: FederationId)
        requires
            i < self.keys().len(),
        ensures
            id@ == self.keys()[i as int],
    {
        self.entries[i].id
    }

    /// The value beside the key at place `i` of the ascending order.
    pub fn value_at(&self, i: usize) -> (value: &V)
        requires
            self.wf(),
            i < self.keys().len(),
        ensures
            self@.contains_key(self.keys()[i as int]),
            *value == self@[self.keys()[i as int]],
    {
        proof {
            lemma_map_at(self.entries@, i as int);
        }
        &self.entries[i].value
    }

    /// Where `id` stands, or where it would have to be put: the flag says
    /// whether the key is present, the index is its place in the order.
    fn search(&self, id: &FederationId) -> (r: (bool, usize))
        requires
            self.wf(),
        ensures
            r.1 <= self.entries@.len(),
            r.0 ==> r.1 < self.entries@.len() && self.entries@[r.1 as int].id@ == id@,
            r.0 == self@.contains_key(id@),
            !r.0 ==> forall|j: int| 0 <= j < r.1 ==> id_lt(#[trigger] self.entries@[j].id@, id@),
            !r.0 ==> forall|j: int|
                r.1 <= j < self.entries@.len() ==> id_lt(id@, #[trigger] self.entries@[j].id@),
    {
        let mut low: usize = 0;
        let mut high: usize = self.entries.len();
        while low < high
            invariant
                self.wf(),
                low <= high <= self.entries@.len(),
                forall|j: int| 0 <= j < low ==> id_lt(#[trigger] self.entries@[j].id@, id@),
                forall|j: int|
                    high <= j < self.entries@.len() ==> id_lt(id@, #[trigger] self.entries@[j].id@),
            decreases high - low,
        {
            let mid = low + (high - low) / 2;
            let key = &self.entries[mid].id;
            if key.precedes(id) {
                assert forall|j: int| 0 <= j < mid + 1 implies id_lt(
                    #[trigger] self.entries@[j].id@,
                    id@,
                ) by {
                    if j < mid {
                        lemma_id_lt_transitive(self.entries@[j].id@, key@, id@);
                    }
                }
                low = mid + 1;
            } else if id.precedes(key) {
                assert forall|j: int| mid <= j < self.entries@.len() implies id_lt(
                    id@,
                    #[trigger] self.entries@[j].id@,
                ) by {
                    if j > mid {
                        lemma_id_lt_transitive(id@, key@, self.entries@[j].id@);
                    }
                }
                high = mid;
            } else {
                proof {
                    if key@ != id@ {
                        lemma_id_lt_total(key@, id@);
                    }
                    assert(has_key(self.entries@, id@));
                }
                return (true, mid);
            }
        }
        proof {
            if has_key(self.entries@, id@) {
                let i = position(self.entries@, id@);
                lemma_id_lt_irreflexive(id@);
            }
        }
        (false, low)
    }

    /// Whether the map holds `id`.
    pub fn contains(&self, id: &FederationId) -> (r: bool)
        requires
            self.wf(),
        ensures
            r == self@.contains_key(id@),
    {
        self.search(id).0
    }

    /// The value under `id`, if the map holds that key.
    pub fn get(&self, id: &FederationId) -> (r: Option<&V>)
        requires
            self.wf(),
        ensures
            r is Some <==> self@.contains_key(id@),
            r matches Some(value) ==> *value == self@[id@],
    {
        let (found, at) = self.search(id);
        if found {
            proof {
                lemma_map_at(self.entries@, at as int);
            }
            Some(&self.entries[at].value)
        } else {
            None
        }
    }

    /// Puts `value` under `id`, in place of what was there.
    pub fn insert(&mut self, id: FederationId, value: V)
        requires
            old(self).wf(),
        ensures
            final(self).wf(),
            final(self)@ == old(self)@.insert(id@, value),
    {
        let (found, at) = self.search(&id);
        let entry = Entry { id, value };
        if found {
            proof {
                lemma_replace(self.entries@, at as int, entry);
            }
            self.entries.set(at, entry);
        } else {
            proof {
                lemma_insert_new(self.entries@, at as int, entry);
            }
            self.entries.insert(at, entry);
        }
    }

    /// Takes `id` out of the map and hands back its value, if it was there.
    pub fn remove(&mut self, id: &FederationId) -> (r: Option<V>)
        requires
            old(self).wf(),
        ensures
            final(self).wf(),
            final(self)@ == old(self)@.remove(id@),
            r is Some <==> old(self)@.contains_key(id@),
            r matches Some(value) ==> value == old(self)@[id@],
    {
        let (found, at) = self.search(id);
        if found {
            proof {
                lemma_remove(self.entries@, at as int);
                lemma_map_at(self.entries@, at as int);
            }
            let entry = self.entries.remove(at);
            Some(entry.value)
        } else {
            assert(self@.remove(id@) =~= self@);
            None
        }
    }
}

} // verus!
