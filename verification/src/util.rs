//! Small containers and helpers shared by the game modes.

use vstd::laws_eq::obeys_view_eq;
use vstd::prelude::*;
use vstd::std_specs::iter::IteratorSpec;

verus! {

/// The index of the first element of `s` that satisfies `p`, if any.
pub open spec fn first_match<A>(s: Seq<A>, p: spec_fn(A) -> bool) -> Option<int> {
    if exists|i: int| 0 <= i < s.len() && #[trigger] p(s[i]) {
        Some(
            choose|i: int|
                0 <= i < s.len() && #[trigger] p(s[i]) && forall|j: int|
                    0 <= j < i ==> !#[trigger] p(s[j]),
        )
    } else {
        None
    }
}

/// An element that satisfies `p` after elements that all fail it is the
/// first match.
pub proof fn lemma_first_match<A>(s: Seq<A>, p: spec_fn(A) -> bool, i: int)
    requires
        0 <= i < s.len(),
        p(s[i]),
        forall|j: int| 0 <= j < i ==> !#[trigger] p(s[j]),
    ensures
        first_match(s, p) == Some(i),
{
    assert(0 <= i < s.len() && p(s[i]) && forall|j: int| 0 <= j < i ==> !#[trigger] p(s[j]));
    let w = choose|w: int|
        0 <= w < s.len() && #[trigger] p(s[w]) && forall|j: int| 0 <= j < w ==> !#[trigger] p(s[j]);
    if w < i {
        assert(!p(s[w]));
    } else if w > i {
        assert(!p(s[i]));
    }
}

/// An element that satisfies `p` means some element is the first to.
proof fn lemma_first_exists<A>(s: Seq<A>, p: spec_fn(A) -> bool, i: int)
    requires
        0 <= i < s.len(),
        p(s[i]),
    ensures
        exists|w: int|
            0 <= w < s.len() && #[trigger] p(s[w]) && forall|j: int| 0 <= j < w ==> !#[trigger] p(s[j]),
    decreases i,
{
    if exists|j: int| 0 <= j < i && #[trigger] p(s[j]) {
        let j = choose|j: int| 0 <= j < i && #[trigger] p(s[j]);
        lemma_first_exists(s, p, j);
    } else {
        assert(0 <= i < s.len() && p(s[i]) && forall|j: int| 0 <= j < i ==> !#[trigger] p(s[j]));
    }
}

/// The first match satisfies `p`, and no element before it does.
pub proof fn lemma_first_match_is_first<A>(s: Seq<A>, p: spec_fn(A) -> bool)
    requires
        first_match(s, p) is Some,
    ensures
        0 <= first_match(s, p).unwrap() < s.len(),
        p(s[first_match(s, p).unwrap()]),
        forall|j: int| 0 <= j < first_match(s, p).unwrap() ==> !#[trigger] p(s[j]),
{
    let i = choose|i: int| 0 <= i < s.len() && #[trigger] p(s[i]);
    lemma_first_exists(s, p, i);
}

/// Without any element satisfying `p` there is no first match.
pub proof fn lemma_no_match<A>(s: Seq<A>, p: spec_fn(A) -> bool)
    requires
        forall|j: int| 0 <= j < s.len() ==> !#[trigger] p(s[j]),
    ensures
        first_match(s, p) is None,
{
}

/// A [`Vec`] of key-value pairs that is used as if it were a map.
///
/// Keys are compared through their views; no two entries share a key.
/// Entries keep their insertion order, except that [`IndexMap::remove`]
/// moves the last entry into the slot of the removed one.
#[derive(Clone, Debug)]
pub struct IndexMap<K, V>(Vec<(K, V)>);

/// Whether `key` is the key of some entry of `entries`.
pub open spec fn seq_has_key<K: View, V>(entries: Seq<(K, V)>, key: K::V) -> bool {
    exists|i: int| 0 <= i < entries.len() && (#[trigger] entries[i]).0@ == key
}

/// The index of the entry whose key is `key` (meaningful when there is one).
pub open spec fn seq_key_index<K: View, V>(entries: Seq<(K, V)>, key: K::V) -> int {
    choose|i: int| 0 <= i < entries.len() && (#[trigger] entries[i]).0@ == key
}

/// No two entries of `entries` have the same key.
pub open spec fn seq_keys_unique<K: View, V>(entries: Seq<(K, V)>) -> bool {
    forall|i: int, j: int|
        0 <= i < entries.len() && 0 <= j < entries.len() && i != j ==> (#[trigger] entries[i]).0@
            != (#[trigger] entries[j]).0@
}

/// The map that a sequence of entries with unique keys stands for.
pub open spec fn seq_to_map<K: View, V>(entries: Seq<(K, V)>) -> Map<K::V, V> {
    Map::new(
        |k: K::V| seq_has_key(entries, k),
        |k: K::V| entries[seq_key_index(entries, k)].1,
    )
}

/// With unique keys, an entry's index is the index that its key leads to.
pub proof fn lemma_key_index_unique<K: View, V>(entries: Seq<(K, V)>, i: int)
    requires
        seq_keys_unique(entries),
        0 <= i < entries.len(),
    ensures
        seq_has_key(entries, entries[i].0@),
        seq_key_index(entries, entries[i].0@) == i,
{
    assert(seq_has_key(entries, entries[i].0@));
}

/// Replacing the value of entry `i` keeps the keys unique and updates the
/// map at that entry's key.
pub proof fn lemma_update_value<K: View, V>(before: Seq<(K, V)>, i: int, v: V)
    requires
        seq_keys_unique(before),
        0 <= i < before.len(),
    ensures
        seq_keys_unique(before.update(i, (before[i].0, v))),
        seq_to_map(before.update(i, (before[i].0, v))) == seq_to_map(before).insert(
            before[i].0@,
            v,
        ),
{
    let after = before.update(i, (before[i].0, v));
    assert forall|a: int, b: int|
        0 <= a < after.len() && 0 <= b < after.len() && a != b implies (
        #[trigger] after[a]).0@ != (#[trigger] after[b]).0@ by {
        assert(after[a].0 == before[a].0);
        assert(after[b].0 == before[b].0);
    }
    assert forall|k: K::V| seq_has_key(after, k) == seq_has_key(before, k) by {
        if seq_has_key(before, k) {
            let j = seq_key_index(before, k);
            assert(after[j].0 == before[j].0);
        }
        if seq_has_key(after, k) {
            let j = seq_key_index(after, k);
            assert(after[j].0 == before[j].0);
        }
    }
    lemma_key_index_unique(after, i);
    assert forall|k: K::V| #[trigger] seq_has_key(after, k) implies seq_key_index(after, k)
        == seq_key_index(before, k) by {
        let j = seq_key_index(before, k);
        assert(after[j].0 == before[j].0);
        lemma_key_index_unique(after, j);
    }
    assert(seq_to_map(after) =~= seq_to_map(before).insert(before[i].0@, v));
}

/// Appending an entry with a new key keeps the keys unique and adds that key to the map.
pub proof fn lemma_push_entry<K: View, V>(before: Seq<(K, V)>, e: (K, V))
    requires
        seq_keys_unique(before),
        !seq_has_key(before, e.0@),
    ensures
        seq_keys_unique(before.push(e)),
        seq_to_map(before.push(e)) == seq_to_map(before).insert(e.0@, e.1),
{
    let after = before.push(e);
    let n = before.len() as int;
    assert forall|a: int, b: int|
        0 <= a < after.len() && 0 <= b < after.len() && a != b implies (
        #[trigger] after[a]).0@ != (#[trigger] after[b]).0@ by {
        if a < n && b < n {
            assert(after[a] == before[a]);
            assert(after[b] == before[b]);
        } else if a < n {
            assert(after[a] == before[a]);
        } else {
            assert(after[b] == before[b]);
        }
    }
    assert forall|k: K::V| seq_has_key(after, k) == (seq_has_key(before, k) || k == e.0@) by {
        if seq_has_key(before, k) {
            let j = seq_key_index(before, k);
            assert(after[j] == before[j]);
        }
        if k == e.0@ {
            assert(after[n].0@ == k);
        }
        if seq_has_key(after, k) && k != e.0@ {
            let j = seq_key_index(after, k);
            assert(j != n);
            assert(after[j] == before[j]);
        }
    }
    lemma_key_index_unique(after, n);
    assert forall|k: K::V| #[trigger] seq_has_key(before, k) implies seq_key_index(after, k)
        == seq_key_index(before, k) by {
        let j = seq_key_index(before, k);
        assert(after[j] == before[j]);
        lemma_key_index_unique(after, j);
    }
    assert(seq_to_map(after) =~= seq_to_map(before).insert(e.0@, e.1));
}

/// What [`IndexMap::index_or_push`] leaves behind stands for the old map with the
/// entry at `i` in place.
proof fn lemma_pushed_map<K: View, V>(before: Seq<(K, V)>, mid: Seq<(K, V)>, i: int)
    requires
        seq_keys_unique(before),
        0 <= i < mid.len(),
        mid == before || (mid == before.push(mid[i]) && !seq_has_key(before, mid[i].0@)),
    ensures
        seq_keys_unique(mid),
        forall|v: V| #[trigger]
            seq_to_map(mid.update(i, (mid[i].0, v))) == seq_to_map(before).insert(
                mid[i].0@,
                v,
            ),
{
    if mid != before {
        lemma_push_entry(before, mid[i]);
    }
    assert forall|v: V| #[trigger]
        seq_to_map(mid.update(i, (mid[i].0, v))) == seq_to_map(before).insert(mid[i].0@, v) by {
        lemma_update_value(mid, i, v);
        if mid != before {
            assert(seq_to_map(mid).insert(mid[i].0@, v) =~= seq_to_map(before).insert(
                mid[i].0@,
                v,
            ));
        } else {
        }
    }
}

impl<K: PartialEq + View, V> View for IndexMap<K, V> {
    type V = Map<K::V, V>;

    open spec fn view(&self) -> Map<K::V, V> {
        seq_to_map(self.entries())
    }
}

impl<K, V> IndexMap<K, V> {
    /// The entries in their current order.
    pub closed spec fn entries(&self) -> Seq<(K, V)> {
        self.0@
    }
}

impl<K: PartialEq + View, V> IndexMap<K, V> {
    /// The index of the entry with `key` (meaningful when there is one).
    pub open spec fn index_of(&self, key: K::V) -> int {
        seq_key_index(self.entries(), key)
    }

    /// The map's invariant: no key occurs twice.
    pub open spec fn wf(&self) -> bool {
        seq_keys_unique(self.entries())
    }

    /// Creates an empty map.
    pub fn new() -> (map: Self)
        ensures
            map.wf(),
            map.entries() == Seq::<(K, V)>::empty(),
            map@ == Map::<K::V, V>::empty(),
    {
        let map = IndexMap(Vec::new());
        assert(map@ =~= Map::<K::V, V>::empty());
        map
    }

    /// Position of the entry with `key`, if any.
    fn position(&self, key: &K) -> (pos: Option<usize>)
        requires
            obeys_view_eq::<K>(),
            self.wf(),
        ensures
            match pos {
                Some(i) => i < self.entries().len() && self.entries()[i as int].0@ == key@
                    && seq_key_index(self.entries(), key@) == i,
                None => !seq_has_key(self.entries(), key@),
            },
    {
        reveal(obeys_view_eq);
        let n = self.0.len();
        let mut i: usize = 0;
        while i < n
            invariant
                n == self.entries().len(),
                i <= n,
                obeys_view_eq::<K>(),
                self.wf(),
                forall|j: int| 0 <= j < i ==> (#[trigger] self.entries()[j]).0@ != key@,
            decreases n - i,
        {
            reveal(obeys_view_eq);
            if self.0[i].0 == *key {
                proof {
                    lemma_key_index_unique(self.entries(), i as int);
                }
                return Some(i);
            }
            i = i + 1;
        }
        None
    }

    /// Finds the value stored under `key`.
    pub fn get(&self, key: &K) -> (value: Option<&V>)
        requires
            obeys_view_eq::<K>(),
            self.wf(),
        ensures
            match value {
                Some(v) => self@.contains_key(key@) && *v == self@[key@],
                None => !self@.contains_key(key@),
            },
    {
        match self.position(key) {
            Some(i) => Some(&self.0[i].1),
            None => None,
        }
    }

    /// Checks if `key` has an entry in the map.
    pub fn contains_key(&self, key: &K) -> (found: bool)
        requires
            obeys_view_eq::<K>(),
            self.wf(),
        ensures
            found == self@.contains_key(key@),
    {
        self.position(key).is_some()
    }

    /// Gets the number of entries in the map.
    pub fn len(&self) -> (n: usize)
        ensures
            n == self.entries().len(),
    {
        self.0.len()
    }

    /// Inserts a key-value pair. Replaces the value if the key already
    /// exists, keeping the stored key. Returns the value it replaced.
    pub fn insert(&mut self, entry: (K, V)) -> (prev: Option<V>)
        requires
            obeys_view_eq::<K>(),
            old(self).wf(),
        ensures
            final(self).wf(),
            final(self)@ == old(self)@.insert(entry.0@, entry.1),
            match prev {
                Some(p) => old(self)@.contains_key(entry.0@) && p == old(self)@[entry.0@],
                None => !old(self)@.contains_key(entry.0@),
            },
            old(self)@.contains_key(entry.0@) ==> final(self).entries() == old(self).entries().update(
                old(self).index_of(entry.0@),
                (old(self).entries()[old(self).index_of(entry.0@)].0, entry.1),
            ),
            !old(self)@.contains_key(entry.0@) ==> final(self).entries() == old(self).entries().push(entry),
    {
        let (key, value) = entry;
        match self.position(&key) {
            Some(i) => {
                let ghost before = self.entries();
                let mut v = value;
                std::mem::swap(&mut self.0[i].1, &mut v);
                proof {
                    let after = self.entries();
                    assert(after == before.update(i as int, (before[i as int].0, entry.1)));
                    assert forall|a: int, b: int|
                        0 <= a < after.len() && 0 <= b < after.len() && a != b implies (
                        #[trigger] after[a]).0@ != (#[trigger] after[b]).0@ by {
                        assert(after[a].0 == before[a].0);
                        assert(after[b].0 == before[b].0);
                    }
                    assert forall|k: K::V| seq_has_key(after, k) == seq_has_key(before, k) by {
                        if seq_has_key(before, k) {
                            let j = seq_key_index(before, k);
                            assert(after[j].0 == before[j].0);
                        }
                        if seq_has_key(after, k) {
                            let j = seq_key_index(after, k);
                            assert(after[j].0 == before[j].0);
                        }
                    }
                    assert forall|k: K::V| #[trigger] seq_has_key(after, k) implies seq_key_index(
                        after,
                        k,
                    ) == seq_key_index(before, k) by {
                        let j = seq_key_index(before, k);
                        assert(after[j].0 == before[j].0);
                        lemma_key_index_unique(after, j);
                    }
                    assert(self@ =~= old(self)@.insert(entry.0@, entry.1));
                }
                Some(v)
            },
            None => {
                let ghost before = self.entries();
                self.0.push((key, value));
                proof {
                    let after = self.entries();
                    let n = before.len() as int;
                    assert(after == before.push(entry));
                    assert forall|k: K::V|
                        seq_has_key(after, k) == (seq_has_key(before, k) || k == entry.0@) by {
                        if seq_has_key(before, k) {
                            let j = seq_key_index(before, k);
                            assert(after[j] == before[j]);
                        }
                        if k == entry.0@ {
                            assert(after[n].0@ == k);
                        }
                        if seq_has_key(after, k) && k != entry.0@ {
                            let j = seq_key_index(after, k);
                            assert(j != n);
                            assert(after[j] == before[j]);
                        }
                    }
                    lemma_key_index_unique(after, n);
                    assert forall|k: K::V| #[trigger]
                        seq_has_key(before, k) implies seq_key_index(after, k) == seq_key_index(
                        before,
                        k,
                    ) by {
                        let j = seq_key_index(before, k);
                        assert(after[j] == before[j]);
                        lemma_key_index_unique(after, j);
                    }
                    assert(self@ =~= old(self)@.insert(entry.0@, entry.1));
                }
                None
            },
        }
    }

    /// Removes the entry with `key` and returns its value. The last entry
    /// takes the place of the removed one.
    pub fn remove(&mut self, key: &K) -> (removed: Option<V>)
        requires
            obeys_view_eq::<K>(),
            old(self).wf(),
        ensures
            final(self).wf(),
            final(self)@ == old(self)@.remove(key@),
            match removed {
                Some(v) => old(self)@.contains_key(key@) && v == old(self)@[key@]
                    && final(self).entries() == old(self).entries().update(
                    old(self).index_of(key@),
                    old(self).entries().last(),
                ).drop_last(),
                None => !old(self)@.contains_key(key@) && final(self).entries() == old(self).entries(),
            },
    {
        match self.position(key) {
            Some(i) => {
                let ghost before = self.entries();
                let (_k, v) = self.0.swap_remove(i);
                proof {
                    let after = self.entries();
                    let n = before.len() as int;
                    let ii = i as int;
                    assert(after == before.update(ii, before[n - 1]).drop_last());
                    assert forall|a: int| 0 <= a < after.len() implies #[trigger] after[a] == (
                    if a == ii {
                        before[n - 1]
                    } else {
                        before[a]
                    }) by {}
                    assert forall|a: int, b: int|
                        0 <= a < after.len() && 0 <= b < after.len() && a != b implies (
                        #[trigger] after[a]).0@ != (#[trigger] after[b]).0@ by {
                        let sa = if a == ii {
                            n - 1
                        } else {
                            a
                        };
                        let sb = if b == ii {
                            n - 1
                        } else {
                            b
                        };
                        assert(after[a] == before[sa]);
                        assert(after[b] == before[sb]);
                    }
                    assert forall|k: K::V|
                        seq_has_key(after, k) == (seq_has_key(before, k) && k != key@) by {
                        if seq_has_key(before, k) && k != key@ {
                            let j = seq_key_index(before, k);
                            assert(j != ii);
                            let t = if j == n - 1 {
                                ii
                            } else {
                                j
                            };
                            assert(after[t] == before[j]);
                        }
                        if seq_has_key(after, k) {
                            let j = seq_key_index(after, k);
                            let sj = if j == ii {
                                n - 1
                            } else {
                                j
                            };
                            assert(after[j] == before[sj]);
                            assert(sj != ii);
                        }
                    }
                    assert forall|k: K::V| #[trigger] seq_has_key(after, k) implies after[seq_key_index(
                        after,
                        k,
                    )].1 == before[seq_key_index(before, k)].1 by {
                        let j = seq_key_index(after, k);
                        let sj = if j == ii {
                            n - 1
                        } else {
                            j
                        };
                        assert(after[j] == before[sj]);
                        lemma_key_index_unique(before, sj);
                    }
                    assert(self@ =~= old(self)@.remove(key@));
                }
                Some(v)
            },
            None => {
                assert(self@ =~= old(self)@.remove(key@));
                None
            },
        }
    }

    /// Makes sure `key` has an entry, inserting `(key, value)` at the end if
    /// it has none, and returns the entry's index.
    fn index_or_push(&mut self, key: K, value: V) -> (i: usize)
        requires
            obeys_view_eq::<K>(),
            old(self).wf(),
        ensures
            final(self).wf(),
            i < final(self).entries().len(),
            final(self).entries()[i as int].0@ == key@,
            old(self)@.contains_key(key@) ==> final(self).entries() == old(self).entries()
                && final(self).entries()[i as int].1 == old(self)@[key@],
            !old(self)@.contains_key(key@) ==> final(self).entries() == old(self).entries().push((key, value)) && i == old(self).entries().len(),
    {
        match self.position(&key) {
            Some(i) => i,
            None => {
                let ghost before = self.entries();
                self.0.push((key, value));
                proof {
                    let after = self.entries();
                    assert forall|a: int, b: int|
                        0 <= a < after.len() && 0 <= b < after.len() && a != b implies (
                        #[trigger] after[a]).0@ != (#[trigger] after[b]).0@ by {
                        if a < before.len() && b < before.len() {
                            assert(after[a] == before[a]);
                            assert(after[b] == before[b]);
                        } else if a < before.len() {
                            assert(after[a] == before[a]);
                        } else {
                            assert(after[b] == before[b]);
                        }
                    }
                }
                self.0.len() - 1
            },
        }
    }

    /// Finds the value stored under `key`, or inserts `value` under it if
    /// there is none, and hands out the stored value for updating.
    pub fn get_or_insert(&mut self, key: K, value: V) -> (slot: &mut V)
        requires
            obeys_view_eq::<K>(),
            old(self).wf(),
        ensures
            old(self)@.contains_key(key@) ==> *slot == old(self)@[key@],
            !old(self)@.contains_key(key@) ==> *slot == value,
            final(self).wf(),
            final(self)@ == old(self)@.insert(key@, *final(slot)),
            old(self)@.contains_key(key@) ==> final(self).entries() == old(self).entries().update(
                old(self).index_of(key@),
                (old(self).entries()[old(self).index_of(key@)].0, *final(slot)),
            ),
            !old(self)@.contains_key(key@) ==> final(self).entries() == old(self).entries().push(
                (key, *final(slot)),
            ),
    {
        let ghost k = key@;
        let i = self.index_or_push(key, value);
        let ghost mid = self.entries();
        proof {
            lemma_pushed_map(old(self).entries(), mid, i as int);
        }
        let slot = &mut self.0[i].1;
        proof {
            lemma_update_value(mid, i as int, *final(slot));
        }
        slot
    }

    /// Finds the value stored under `k`, or inserts the value that `v`
    /// makes if there is none, and hands out the stored value for updating.
    /// `v` is only called when `k` has no entry.
    pub fn get_or_insert_with<F: FnOnce() -> V>(&mut self, k: K, v: F) -> (slot: &mut V)
        requires
            obeys_view_eq::<K>(),
            old(self).wf(),
            !old(self)@.contains_key(k@) ==> call_requires(v, ()),
        ensures
            old(self)@.contains_key(k@) ==> *slot == old(self)@[k@],
            !old(self)@.contains_key(k@) ==> call_ensures(v, (), *slot),
            final(self).wf(),
            final(self)@ == old(self)@.insert(k@, *final(slot)),
            old(self)@.contains_key(k@) ==> final(self).entries() == old(self).entries().update(
                old(self).index_of(k@),
                (old(self).entries()[old(self).index_of(k@)].0, *final(slot)),
            ),
            !old(self)@.contains_key(k@) ==> final(self).entries() == old(self).entries().push(
                (k, *final(slot)),
            ),
    {
        let i = match self.position(&k) {
            Some(i) => i,
            None => {
                let value = v();
                self.index_or_push(k, value)
            },
        };
        let ghost mid = self.entries();
        proof {
            lemma_pushed_map(old(self).entries(), mid, i as int);
        }
        let slot = &mut self.0[i].1;
        proof {
            lemma_update_value(mid, i as int, *final(slot));
        }
        slot
    }

    /// Iterates over the entries in their current order.
    pub fn iter(&self) -> (it: std::slice::Iter<'_, (K, V)>)
        ensures
            it.remaining() == self.entries().map_values(|e: (K, V)| &e),
    {
        let it = self.0.iter();
        proof {
            broadcast use vstd::std_specs::slice::axiom_spec_slice_iter;
            assert(it.remaining() =~= self.entries().map_values(|e: (K, V)| &e));
        }
        it
    }
}

impl<K, V> IntoIterator for IndexMap<K, V> {
    type Item = (K, V);

    type IntoIter = std::vec::IntoIter<(K, V)>;

    /// Iterates over the entries by value, in their current order.
    fn into_iter(self) -> (it: std::vec::IntoIter<(K, V)>)
        ensures
            it.remaining() == self.entries(),
    {
        proof {
            broadcast use vstd::std_specs::vec::axiom_spec_into_iter;
        }
        self.0.into_iter()
    }
}

impl<K: PartialEq + View, V> Default for IndexMap<K, V> {
    fn default() -> (map: Self)
        ensures
            map.wf(),
            map.entries() == Seq::<(K, V)>::empty(),
    {
        IndexMap(Vec::new())
    }
}

/// The keys of the entries, in order.
pub open spec fn seq_keys<K: View, V>(entries: Seq<(K, V)>) -> Seq<K::V> {
    entries.map_values(|e: (K, V)| e.0@)
}

/// A map holds one entry per key: its length is the number of keys.
pub proof fn law_len_counts_keys<K: PartialEq + View, V>(map: IndexMap<K, V>)
    requires
        map.wf(),
    ensures
        map@.dom().finite(),
        map@.dom().len() == map.entries().len(),
{
    let e = map.entries();
    let keys = seq_keys(e);
    assert(keys.no_duplicates()) by {
        assert forall|i: int, j: int| 0 <= i < keys.len() && 0 <= j < keys.len() && i != j implies keys[i]
            != keys[j] by {
            assert(keys[i] == e[i].0@);
            assert(keys[j] == e[j].0@);
        }
    }
    keys.unique_seq_to_set();
    assert(map@.dom() =~= keys.to_set()) by {
        assert forall|k: K::V| map@.dom().contains(k) <==> keys.to_set().contains(k) by {
            if map@.dom().contains(k) {
                let i = seq_key_index(e, k);
                assert(keys[i] == k);
            }
            if keys.to_set().contains(k) {
                let i = choose|i: int| 0 <= i < keys.len() && keys[i] == k;
                assert(e[i].0@ == k);
            }
        }
    }
}

/// What was inserted under a key is found under it; every other key keeps
/// its value.
pub proof fn law_get_after_insert<K: PartialEq + View, V>(before: IndexMap<K, V>, after: IndexMap<K, V>, key: K::V, value: V)
    requires
        after@ == before@.insert(key, value),
    ensures
        after@.contains_key(key),
        after@[key] == value,
        forall|k: K::V|
            k != key ==> (after@.contains_key(k) == before@.contains_key(k)) && (before@.contains_key(k)
                ==> #[trigger] after@[k] == before@[k]),
{
}

/// A removed key is gone; every other key keeps its value.
pub proof fn law_get_after_remove<K: PartialEq + View, V>(before: IndexMap<K, V>, after: IndexMap<K, V>, key: K::V)
    requires
        after@ == before@.remove(key),
    ensures
        !after@.contains_key(key),
        forall|k: K::V|
            k != key ==> (after@.contains_key(k) == before@.contains_key(k)) && (before@.contains_key(k)
                ==> #[trigger] after@[k] == before@[k]),
{
}

/// Inserting a new key and removing it again gives back the map it was
/// inserted into.
pub proof fn law_remove_undoes_insert<K: PartialEq + View, V>(
    before: IndexMap<K, V>,
    middle: IndexMap<K, V>,
    after: IndexMap<K, V>,
    key: K::V,
    value: V,
)
    requires
        !before@.contains_key(key),
        middle@ == before@.insert(key, value),
        after@ == middle@.remove(key),
    ensures
        after@ == before@,
{
    assert(after@ =~= before@);
}

/// Inserting an entry with a new key and removing that key again gives
/// back the very entries, in their order: the inserted entry is the last
/// one, so nothing is moved into its place.
pub proof fn law_remove_undoes_insert_in_order<K: PartialEq + View, V>(
    before: IndexMap<K, V>,
    middle: IndexMap<K, V>,
    after: IndexMap<K, V>,
    entry: (K, V),
)
    requires
        middle.wf(),
        !before@.contains_key(entry.0@),
        middle.entries() == before.entries().push(entry),
        after.entries() == middle.entries().update(
            middle.index_of(entry.0@),
            middle.entries().last(),
        ).drop_last(),
    ensures
        after.entries() == before.entries(),
        after@ == before@,
{
    let n = before.entries().len() as int;
    lemma_key_index_unique(middle.entries(), n);
    assert(middle.entries()[n] == entry);
    assert(after.entries() =~= before.entries());
}

} // verus!
