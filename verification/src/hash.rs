//! Hash tables keyed by byte strings. Each key occurs at most once; the
//! entries are kept in the order their keys first arrived, which is one of
//! the orders that the runtime's seeded tables may walk them in.

use vstd::prelude::*;
use vstd::string::StringSliceAdditionalSpecFns;
use crate::pool::Pool;
use crate::text::{copy_bytes, str_bytes};

verus! {

/// Whether some entry has the key.
pub open spec fn has_key<V>(es: Seq<(Seq<u8>, V)>, k: Seq<u8>) -> bool {
    exists|i: int| 0 <= i < es.len() && (#[trigger] es[i]).0 == k
}

/// The position of the entry with the key.
pub open spec fn key_index<V>(es: Seq<(Seq<u8>, V)>, k: Seq<u8>) -> int {
    choose|i: int| 0 <= i < es.len() && (#[trigger] es[i]).0 == k
}

/// No key occurs twice.
pub open spec fn distinct_keys<V>(es: Seq<(Seq<u8>, V)>) -> bool {
    forall|i: int, j: int| 0 <= i < j < es.len() ==> (#[trigger] es[i]).0 != (#[trigger] es[j]).0
}

/// The value stored under a key, if any.
pub open spec fn spec_lookup<V>(es: Seq<(Seq<u8>, V)>, k: Seq<u8>) -> Option<V> {
    if has_key(es, k) {
        Some(es[key_index(es, k)].1)
    } else {
        None
    }
}

/// The entries after storing `v` under `k`: the entry with the key takes
/// the value in place, or the pair is appended.
pub open spec fn spec_insert<V>(es: Seq<(Seq<u8>, V)>, k: Seq<u8>, v: V) -> Seq<(Seq<u8>, V)> {
    if has_key(es, k) {
        es.update(key_index(es, k), (k, v))
    } else {
        es.push((k, v))
    }
}

/// The entries after removing the key.
pub open spec fn spec_remove<V>(es: Seq<(Seq<u8>, V)>, k: Seq<u8>) -> Seq<(Seq<u8>, V)> {
    if has_key(es, k) {
        es.remove(key_index(es, k))
    } else {
        es
    }
}

/// With distinct keys, the entry with a key sits at a single position.
proof fn lemma_key_index<V>(es: Seq<(Seq<u8>, V)>, k: Seq<u8>, i: int)
    requires
        distinct_keys(es),
        0 <= i < es.len(),
        es[i].0 == k,
    ensures
        has_key(es, k),
        key_index(es, k) == i,
{
    assert(has_key(es, k));
    let j = key_index(es, k);
    if j != i {
        if j < i {
            assert(es[j].0 != es[i].0);
        } else {
            assert(es[i].0 != es[j].0);
        }
    }
}

/// A hash table from byte-string keys to values.
pub struct Hash<V> {
    entries: Vec<(Vec<u8>, V)>,
}

impl<V> Hash<V> {
    /// The entries, in the order their keys arrived.
    pub closed spec fn spec_entries(&self) -> Seq<(Seq<u8>, V)> {
        self.entries@.map_values(|e: (Vec<u8>, V)| (e.0@, e.1))
    }

    /// The table's invariant: no key occurs twice.
    pub open spec fn wf(&self) -> bool {
        distinct_keys(self.spec_entries())
    }

    /// Create an empty hash table.
    pub fn new(_pool: &Pool) -> (r: Self)
        ensures
            r.wf(),
            r.spec_entries() == Seq::<(Seq<u8>, V)>::empty(),
    {
        let r = Hash { entries: Vec::new() };
        proof {
            assert(r.spec_entries() =~= Seq::<(Seq<u8>, V)>::empty());
        }
        r
    }

    /// The position of the entry with the key, if any.
    fn find(&self, key: &[u8]) -> (r: Option<usize>)
        requires
            self.wf(),
        ensures
            r matches Some(i) ==> has_key(self.spec_entries(), key@) && i == key_index(
                self.spec_entries(),
                key@,
            ) && i < self.spec_entries().len(),
            r is None ==> !has_key(self.spec_entries(), key@),
    {
        let mut i: usize = 0;
        while i < self.entries.len()
            invariant
                self.wf(),
                i <= self.entries@.len(),
                forall|j: int| 0 <= j < i ==> (#[trigger] self.spec_entries()[j]).0 != key@,
            decreases self.entries@.len() - i,
        {
            if bytes_equal(self.entries[i].0.as_slice(), key) {
                proof {
                    lemma_key_index(self.spec_entries(), key@, i as int);
                }
                return Some(i);
            }
            assert(self.spec_entries()[i as int].0 != key@);
            i = i + 1;
        }
        None
    }

    /// Store a value under a key, replacing the value stored there.
    pub fn insert(&mut self, key: &[u8], value: V)
        requires
            old(self).wf(),
        ensures
            final(self).wf(),
            final(self).spec_entries() == spec_insert(old(self).spec_entries(), key@, value),
    {
        let ghost es = self.spec_entries();
        match self.find(key) {
            Some(i) => {
                let k = copy_bytes(key);
                self.entries.set(i, (k, value));
                proof {
                    assert(self.spec_entries() =~= es.update(i as int, (key@, value)));
                    assert forall|a: int, b: int| 0 <= a < b < self.spec_entries().len()
                        implies (#[trigger] self.spec_entries()[a]).0 != (#[trigger] self.spec_entries()[b]).0 by {
                        assert(es[a].0 != es[b].0);
                    }
                }
            },
            None => {
                let k = copy_bytes(key);
                self.entries.push((k, value));
                proof {
                    assert(self.spec_entries() =~= es.push((key@, value)));
                    assert forall|a: int, b: int| 0 <= a < b < self.spec_entries().len()
                        implies (#[trigger] self.spec_entries()[a]).0 != (#[trigger] self.spec_entries()[b]).0 by {
                        if b == es.len() {
                            assert(es[a].0 != key@);
                        } else {
                            assert(es[a].0 != es[b].0);
                        }
                    }
                }
            },
        }
    }

    /// The value stored under the key, if any.
    pub fn get(&self, key: &[u8]) -> (r: Option<&V>)
        requires
            self.wf(),
        ensures
            match r {
                Some(v) => spec_lookup(self.spec_entries(), key@) == Some(*v),
                None => spec_lookup(self.spec_entries(), key@) is None,
            },
    {
        match self.find(key) {
            Some(i) => Some(&self.entries[i].1),
            None => None,
        }
    }

    /// Remove the key and its value, if present.
    pub fn remove(&mut self, key: &[u8])
        requires
            old(self).wf(),
        ensures
            final(self).wf(),
            final(self).spec_entries() == spec_remove(old(self).spec_entries(), key@),
    {
        let ghost es = self.spec_entries();
        match self.find(key) {
            Some(i) => {
                let _ = self.entries.remove(i);
                proof {
                    assert(self.spec_entries() =~= es.remove(i as int));
                    assert forall|a: int, b: int| 0 <= a < b < self.spec_entries().len()
                        implies (#[trigger] self.spec_entries()[a]).0 != (#[trigger] self.spec_entries()[b]).0 by {
                        let a2 = if a < i { a } else { a + 1 };
                        let b2 = if b < i { b } else { b + 1 };
                        assert(self.spec_entries()[a] == es[a2]);
                        assert(self.spec_entries()[b] == es[b2]);
                        assert(es[a2].0 != es[b2].0);
                    }
                }
            },
            None => {},
        }
    }

    /// The number of keys.
    pub fn len(&self) -> (r: usize)
        ensures
            r == self.spec_entries().len(),
    {
        self.entries.len()
    }

    /// Whether the table is empty.
    pub fn is_empty(&self) -> (r: bool)
        ensures
            r == (self.spec_entries().len() == 0),
    {
        self.len() == 0
    }

    /// Remove every entry.
    pub fn clear(&mut self)
        ensures
            final(self).wf(),
            final(self).spec_entries() == Seq::<(Seq<u8>, V)>::empty(),
    {
        self.entries = Vec::new();
        proof {
            assert(self.spec_entries() =~= Seq::<(Seq<u8>, V)>::empty());
        }
    }

    /// The key and value of the entry at `index`.
    pub fn entry(&self, index: usize) -> (r: (&[u8], &V))
        requires
            index < self.spec_entries().len(),
        ensures
            r.0@ == self.spec_entries()[index as int].0,
            *r.1 == self.spec_entries()[index as int].1,
    {
        (self.entries[index].0.as_slice(), &self.entries[index].1)
    }

    /// A cursor over the entries.
    pub fn iter(&self) -> (r: HashIter<'_, V>)
        ensures
            r.spec_hash() == self,
            r.spec_index() == 0,
    {
        HashIter { hash: self, index: 0 }
    }

    /// A table holding the given pairs, each inserted in turn.
    pub fn from_iter(pool: &Pool, pairs: Vec<(Vec<u8>, V)>) -> (r: Self)
        ensures
            r.wf(),
            r.spec_entries() == insert_all(Seq::<(Seq<u8>, V)>::empty(), pair_view(pairs@)),
    {
        let mut hash = Self::new(pool);
        hash.extend(pairs);
        hash
    }

    /// Insert each given pair in turn.
    pub fn extend(&mut self, pairs: Vec<(Vec<u8>, V)>)
        requires
            old(self).wf(),
        ensures
            final(self).wf(),
            final(self).spec_entries() == insert_all(old(self).spec_entries(), pair_view(pairs@)),
    {
        let ghost start = self.spec_entries();
        let ghost pv = pair_view(pairs@);
        let mut pairs = pairs;
        let total = pairs.len();
        let mut n: usize = 0;
        while pairs.len() > 0
            invariant
                self.wf(),
                total == pv.len(),
                n + pairs@.len() == total,
                pair_view(pairs@) == pv.subrange(n as int, total as int),
                self.spec_entries() == insert_all(start, pv.subrange(0, n as int)),
            decreases pairs@.len(),
        {
            let ghost before = pairs@;
            let (k, v) = pairs.remove(0);
            proof {
                assert(pv.subrange(0, n + 1).drop_last() =~= pv.subrange(0, n as int));
                assert(pair_view(before)[0] == pv[n as int]);
                assert forall|j: int| 0 <= j < pairs@.len() implies #[trigger] pair_view(pairs@)[j] == pv.subrange(n + 1, total as int)[j] by {
                    assert(pairs@[j] == before[j + 1]);
                    assert(pair_view(before)[j + 1] == pv[n + 1 + j]);
                }
                assert(pair_view(pairs@) =~= pv.subrange(n + 1, total as int));
            }
            self.insert(k.as_slice(), v);
            n = n + 1;
        }
        proof {
            assert(pv.subrange(0, total as int) =~= pv);
        }
    }
}

/// Pairs with their keys viewed as byte sequences.
pub open spec fn pair_view<V>(v: Seq<(Vec<u8>, V)>) -> Seq<(Seq<u8>, V)> {
    v.map_values(|e: (Vec<u8>, V)| (e.0@, e.1))
}

/// The entries after inserting each pair in turn.
pub open spec fn insert_all<V>(es: Seq<(Seq<u8>, V)>, pairs: Seq<(Seq<u8>, V)>) -> Seq<(Seq<u8>, V)>
    decreases pairs.len(),
{
    if pairs.len() == 0 {
        es
    } else {
        spec_insert(insert_all(es, pairs.drop_last()), pairs.last().0, pairs.last().1)
    }
}

/// Whether two byte strings are equal.
pub fn bytes_equal(a: &[u8], b: &[u8]) -> (r: bool)
    ensures
        r == (a@ == b@),
{
    if a.len() != b.len() {
        return false;
    }
    let mut i: usize = 0;
    while i < a.len()
        invariant
            a@.len() == b@.len(),
            i <= a@.len(),
            forall|j: int| 0 <= j < i ==> a@[j] == b@[j],
        decreases a@.len() - i,
    {
        if a[i] != b[i] {
            return false;
        }
        i = i + 1;
    }
    assert(a@ =~= b@);
    true
}

/// A cursor over the entries of a hash table.
pub struct HashIter<'a, V> {
    hash: &'a Hash<V>,
    index: usize,
}

impl<'a, V> HashIter<'a, V> {
    /// The table walked.
    pub closed spec fn spec_hash(&self) -> &'a Hash<V> {
        self.hash
    }

    /// The position of the next entry.
    pub closed spec fn spec_index(&self) -> nat {
        self.index as nat
    }

    /// The next key and value, or None at the end.
    pub fn next(&mut self) -> (r: Option<(&'a [u8], &'a V)>)
        ensures
            final(self).spec_hash() == old(self).spec_hash(),
            old(self).spec_index() < old(self).spec_hash().spec_entries().len() ==> (r matches Some(e)
                && e.0@ == old(self).spec_hash().spec_entries()[old(self).spec_index() as int].0
                && *e.1 == old(self).spec_hash().spec_entries()[old(self).spec_index() as int].1
                && final(self).spec_index() == old(self).spec_index() + 1),
            old(self).spec_index() >= old(self).spec_hash().spec_entries().len() ==> r is None
                && final(self).spec_index() == old(self).spec_index(),
    {
        if self.index < self.hash.len() {
            let e = self.hash.entry(self.index);
            self.index = self.index + 1;
            Some(e)
        } else {
            None
        }
    }
}

/// After storing a value under a key, the key finds that value and every
/// other key finds what it found before; the keys stay distinct.
pub proof fn law_hash_insert_then_get<V>(es: Seq<(Seq<u8>, V)>, k: Seq<u8>, v: V, other: Seq<u8>)
    requires
        distinct_keys(es),
    ensures
        distinct_keys(spec_insert(es, k, v)),
        spec_lookup(spec_insert(es, k, v), k) == Some(v),
        other != k ==> spec_lookup(spec_insert(es, k, v), other) == spec_lookup(es, other),
{
    let r = spec_insert(es, k, v);
    if has_key(es, k) {
        let i = key_index(es, k);
        assert forall|a: int, b: int| 0 <= a < b < r.len() implies (#[trigger] r[a]).0 != (#[trigger] r[b]).0 by {
            assert(es[a].0 != es[b].0);
        }
        lemma_key_index(r, k, i);
    } else {
        assert forall|a: int, b: int| 0 <= a < b < r.len() implies (#[trigger] r[a]).0 != (#[trigger] r[b]).0 by {
            if b == es.len() {
                assert(es[a].0 != k);
            } else {
                assert(es[a].0 != es[b].0);
            }
        }
        lemma_key_index(r, k, es.len() as int);
    }
    if other != k {
        if has_key(es, other) {
            let j = key_index(es, other);
            assert(r[j] == es[j]);
            lemma_key_index(r, other, j);
        } else {
            if has_key(r, other) {
                let j = key_index(r, other);
                assert(j < es.len() && r[j] == es[j]);
            }
        }
    }
}

/// After removing a key, it finds nothing and every other key finds what
/// it found before.
pub proof fn law_hash_remove_then_get<V>(es: Seq<(Seq<u8>, V)>, k: Seq<u8>, other: Seq<u8>)
    requires
        distinct_keys(es),
    ensures
        distinct_keys(spec_remove(es, k)),
        spec_lookup(spec_remove(es, k), k) is None,
        other != k ==> spec_lookup(spec_remove(es, k), other) == spec_lookup(es, other),
{
    let r = spec_remove(es, k);
    if has_key(es, k) {
        let i = key_index(es, k);
        assert forall|a: int, b: int| 0 <= a < b < r.len() implies (#[trigger] r[a]).0 != (#[trigger] r[b]).0 by {
            let a2 = if a < i { a } else { a + 1 };
            let b2 = if b < i { b } else { b + 1 };
            assert(r[a] == es[a2]);
            assert(r[b] == es[b2]);
            assert(es[a2].0 != es[b2].0);
        }
        if has_key(r, k) {
            let j = key_index(r, k);
            let j2 = if j < i { j } else { j + 1 };
            assert(r[j] == es[j2]);
            assert(es[i].0 == k);
            if j2 < i {
                assert(es[j2].0 != es[i].0);
            } else {
                assert(es[i].0 != es[j2].0);
            }
        }
        if other != k {
            if has_key(es, other) {
                let j = key_index(es, other);
                let j3 = if j < i { j } else { j - 1 };
                assert(j != i);
                assert(r[j3] == es[j]);
                lemma_key_index(r, other, j3);
            } else if has_key(r, other) {
                let j = key_index(r, other);
                let j2 = if j < i { j } else { j + 1 };
                assert(r[j] == es[j2]);
            }
        }
    }
}

/// A hash table whose values are references to values that live elsewhere.
pub struct TypedHash<'a, V> {
    inner: Hash<&'a V>,
}

impl<'a, V> TypedHash<'a, V> {
    /// The entries, in the order their keys arrived.
    pub closed spec fn spec_entries(&self) -> Seq<(Seq<u8>, &'a V)> {
        self.inner.spec_entries()
    }

    /// The table's invariant: no key occurs twice.
    pub open spec fn wf(&self) -> bool {
        distinct_keys(self.spec_entries())
    }

    /// Create an empty table.
    pub fn new(pool: &Pool) -> (r: Self)
        ensures
            r.wf(),
            r.spec_entries() == Seq::<(Seq<u8>, &'a V)>::empty(),
    {
        TypedHash { inner: Hash::new(pool) }
    }

    /// Store a reference under a string key.
    pub fn insert_ref(&mut self, key: &str, value: &'a V)
        requires
            old(self).wf(),
        ensures
            final(self).wf(),
            final(self).spec_entries() == spec_insert(old(self).spec_entries(), key.spec_bytes(), value),
    {
        let k = str_bytes(key);
        self.inner.insert(k.as_slice(), value)
    }

    /// Store a reference under a byte-string key.
    pub fn insert_bytes_ref(&mut self, key: &[u8], value: &'a V)
        requires
            old(self).wf(),
        ensures
            final(self).wf(),
            final(self).spec_entries() == spec_insert(old(self).spec_entries(), key@, value),
    {
        self.inner.insert(key, value)
    }

    /// The reference stored under a string key, if any.
    pub fn get_ref(&self, key: &str) -> (r: Option<&'a V>)
        requires
            self.wf(),
        ensures
            r == spec_lookup(self.spec_entries(), key.spec_bytes()),
    {
        let k = str_bytes(key);
        self.get_bytes_ref(k.as_slice())
    }

    /// The reference stored under a byte-string key, if any.
    pub fn get_bytes_ref(&self, key: &[u8]) -> (r: Option<&'a V>)
        requires
            self.wf(),
        ensures
            r == spec_lookup(self.spec_entries(), key@),
    {
        match self.inner.get(key) {
            Some(v) => Some(*v),
            None => None,
        }
    }

    /// Remove a string key.
    pub fn remove(&mut self, key: &str)
        requires
            old(self).wf(),
        ensures
            final(self).wf(),
            final(self).spec_entries() == spec_remove(old(self).spec_entries(), key.spec_bytes()),
    {
        let k = str_bytes(key);
        self.inner.remove(k.as_slice())
    }

    /// Remove a byte-string key.
    pub fn remove_bytes(&mut self, key: &[u8])
        requires
            old(self).wf(),
        ensures
            final(self).wf(),
            final(self).spec_entries() == spec_remove(old(self).spec_entries(), key@),
    {
        self.inner.remove(key)
    }

    /// The number of keys.
    pub fn len(&self) -> (r: usize)
        ensures
            r == self.spec_entries().len(),
    {
        self.inner.len()
    }

    /// Whether the table is empty.
    pub fn is_empty(&self) -> (r: bool)
        ensures
            r == (self.spec_entries().len() == 0),
    {
        self.inner.is_empty()
    }

    /// Remove every entry.
    pub fn clear(&mut self)
        ensures
            final(self).wf(),
            final(self).spec_entries() == Seq::<(Seq<u8>, &'a V)>::empty(),
    {
        self.inner.clear()
    }

    /// A cursor over the entries.
    pub fn iter(&self) -> (r: TypedHashIter<'_, 'a, V>)
        ensures
            r.spec_hash() == self,
            r.spec_index() == 0,
    {
        TypedHashIter { hash: self, index: 0 }
    }

    /// A table holding the given pairs with string keys, inserted in turn.
    pub fn from_iter(pool: &Pool, pairs: &[(&str, &'a V)]) -> (r: Self)
        ensures
            r.wf(),
            r.spec_entries() == insert_all(Seq::<(Seq<u8>, &'a V)>::empty(), str_pairs_view(pairs@)),
    {
        let mut hash = Self::new(pool);
        let mut i: usize = 0;
        while i < pairs.len()
            invariant
                hash.wf(),
                i <= pairs@.len(),
                hash.spec_entries() == insert_all(Seq::<(Seq<u8>, &'a V)>::empty(), str_pairs_view(pairs@).subrange(0, i as int)),
            decreases pairs@.len() - i,
        {
            let (k, v) = pairs[i];
            hash.insert_ref(k, v);
            proof {
                assert(str_pairs_view(pairs@).subrange(0, i + 1).drop_last() =~= str_pairs_view(pairs@).subrange(0, i as int));
            }
            i = i + 1;
        }
        proof {
            assert(str_pairs_view(pairs@).subrange(0, pairs@.len() as int) =~= str_pairs_view(pairs@));
        }
        hash
    }

    /// A table holding the given pairs with byte-string keys, inserted in
    /// turn.
    pub fn from_bytes_iter(pool: &Pool, pairs: &[(&[u8], &'a V)]) -> (r: Self)
        ensures
            r.wf(),
            r.spec_entries() == insert_all(Seq::<(Seq<u8>, &'a V)>::empty(), byte_pairs_view(pairs@)),
    {
        let mut hash = Self::new(pool);
        let mut i: usize = 0;
        while i < pairs.len()
            invariant
                hash.wf(),
                i <= pairs@.len(),
                hash.spec_entries() == insert_all(Seq::<(Seq<u8>, &'a V)>::empty(), byte_pairs_view(pairs@).subrange(0, i as int)),
            decreases pairs@.len() - i,
        {
            let (k, v) = pairs[i];
            hash.insert_bytes_ref(k, v);
            proof {
                assert(byte_pairs_view(pairs@).subrange(0, i + 1).drop_last() =~= byte_pairs_view(pairs@).subrange(0, i as int));
            }
            i = i + 1;
        }
        proof {
            assert(byte_pairs_view(pairs@).subrange(0, pairs@.len() as int) =~= byte_pairs_view(pairs@));
        }
        hash
    }
}

impl<'a, V> TypedHash<'a, V> {
    /// Insert each string-keyed pair in turn.
    pub fn extend(&mut self, pairs: &[(&str, &'a V)])
        requires
            old(self).wf(),
        ensures
            final(self).wf(),
            final(self).spec_entries() == insert_all(old(self).spec_entries(), str_pairs_view(pairs@)),
    {
        let ghost start = self.spec_entries();
        let mut i: usize = 0;
        while i < pairs.len()
            invariant
                self.wf(),
                i <= pairs@.len(),
                self.spec_entries() == insert_all(start, str_pairs_view(pairs@).subrange(0, i as int)),
            decreases pairs@.len() - i,
        {
            let (k, v) = pairs[i];
            self.insert_ref(k, v);
            proof {
                assert(str_pairs_view(pairs@).subrange(0, i + 1).drop_last() =~= str_pairs_view(pairs@).subrange(0, i as int));
            }
            i = i + 1;
        }
        proof {
            assert(str_pairs_view(pairs@).subrange(0, pairs@.len() as int) =~= str_pairs_view(pairs@));
        }
    }

    /// Insert each byte-keyed pair in turn.
    pub fn extend_bytes(&mut self, pairs: &[(&[u8], &'a V)])
        requires
            old(self).wf(),
        ensures
            final(self).wf(),
            final(self).spec_entries() == insert_all(old(self).spec_entries(), byte_pairs_view(pairs@)),
    {
        let ghost start = self.spec_entries();
        let mut i: usize = 0;
        while i < pairs.len()
            invariant
                self.wf(),
                i <= pairs@.len(),
                self.spec_entries() == insert_all(start, byte_pairs_view(pairs@).subrange(0, i as int)),
            decreases pairs@.len() - i,
        {
            let (k, v) = pairs[i];
            self.insert_bytes_ref(k, v);
            proof {
                assert(byte_pairs_view(pairs@).subrange(0, i + 1).drop_last() =~= byte_pairs_view(pairs@).subrange(0, i as int));
            }
            i = i + 1;
        }
        proof {
            assert(byte_pairs_view(pairs@).subrange(0, pairs@.len() as int) =~= byte_pairs_view(pairs@));
        }
    }
}

/// String-keyed pairs with their keys as bytes.
pub open spec fn str_pairs_view<'a, V>(p: Seq<(&str, &'a V)>) -> Seq<(Seq<u8>, &'a V)> {
    p.map_values(|e: (&str, &'a V)| (e.0.spec_bytes(), e.1))
}

/// Byte-keyed pairs with their keys viewed.
pub open spec fn byte_pairs_view<'a, V>(p: Seq<(&[u8], &'a V)>) -> Seq<(Seq<u8>, &'a V)> {
    p.map_values(|e: (&[u8], &'a V)| (e.0@, e.1))
}

/// A cursor over the entries of a typed hash table.
pub struct TypedHashIter<'b, 'a, V> {
    hash: &'b TypedHash<'a, V>,
    index: usize,
}

impl<'b, 'a, V> TypedHashIter<'b, 'a, V> {
    /// The table walked.
    pub closed spec fn spec_hash(&self) -> &'b TypedHash<'a, V> {
        self.hash
    }

    /// The position of the next entry.
    pub closed spec fn spec_index(&self) -> nat {
        self.index as nat
    }

    /// The next key and reference, or None at the end.
    pub fn next(&mut self) -> (r: Option<(&'b [u8], &'a V)>)
        ensures
            final(self).spec_hash() == old(self).spec_hash(),
            old(self).spec_index() < old(self).spec_hash().spec_entries().len() ==> (r matches Some(e)
                && e.0@ == old(self).spec_hash().spec_entries()[old(self).spec_index() as int].0
                && e.1 == old(self).spec_hash().spec_entries()[old(self).spec_index() as int].1
                && final(self).spec_index() == old(self).spec_index() + 1),
            old(self).spec_index() >= old(self).spec_hash().spec_entries().len() ==> r is None
                && final(self).spec_index() == old(self).spec_index(),
            (match r {
                Some(e) => Some((e.0@, e.1)),
                None => None,
            }) == hash_walk_item(old(self).spec_hash().spec_entries(), old(self).spec_index() as int),
    {
        if self.index < self.hash.inner.len() {
            let (k, v) = self.hash.inner.entry(self.index);
            self.index = self.index + 1;
            Some((k, *v))
        } else {
            None
        }
    }
}

/// What a cursor over a hash table hands out at a position: the entry
/// there, or nothing past the last one.
pub open spec fn hash_walk_item<T>(es: Seq<(Seq<u8>, T)>, i: int) -> Option<(Seq<u8>, T)> {
    if 0 <= i < es.len() {
        Some(es[i])
    } else {
        None
    }
}

/// Walking a typed hash table from its start hands out exactly as many
/// entries as its length, then nothing; their keys are pairwise distinct
/// and are exactly the keys present, and each comes with the reference
/// that looking its key up gives.
pub proof fn law_typed_hash_walk<'a, V>(h: &TypedHash<'a, V>)
    requires
        h.wf(),
    ensures
        forall|i: int|
            0 <= i < h.spec_entries().len() ==> #[trigger] hash_walk_item(h.spec_entries(), i)
                == Some(h.spec_entries()[i]),
        forall|i: int|
            i >= h.spec_entries().len() ==> #[trigger] hash_walk_item(h.spec_entries(), i) is None,
        forall|i: int, j: int|
            0 <= i < j < h.spec_entries().len() ==> (#[trigger] h.spec_entries()[i]).0 != (
            #[trigger] h.spec_entries()[j]).0,
        forall|i: int|
            0 <= i < h.spec_entries().len() ==> spec_lookup(
                h.spec_entries(),
                (#[trigger] h.spec_entries()[i]).0,
            ) == Some(h.spec_entries()[i].1),
        forall|k: Seq<u8>|
            #[trigger] spec_lookup(h.spec_entries(), k) is Some <==> exists|i: int|
                0 <= i < h.spec_entries().len() && (#[trigger] h.spec_entries()[i]).0 == k,
{
    let es = h.spec_entries();
    assert forall|i: int| 0 <= i < es.len() implies spec_lookup(es, (#[trigger] es[i]).0) == Some(
        es[i].1,
    ) by {
        lemma_key_index(es, es[i].0, i);
    }
}

/// The runtime's default hash of a key: multiply by 33 and add each byte,
/// modulo 2^32.
pub open spec fn spec_hash_times33(key: Seq<u8>) -> u32
    decreases key.len(),
{
    if key.len() == 0 {
        0
    } else {
        ((spec_hash_times33(key.drop_last()) as int * 33 + key.last()) % 0x1_0000_0000) as u32
    }
}

/// The runtime's default hash function.
pub fn hash_default(key: &[u8]) -> (r: u32)
    ensures
        r == spec_hash_times33(key@),
{
    let mut h: u32 = 0;
    let mut i: usize = 0;
    while i < key.len()
        invariant
            i <= key@.len(),
            h == spec_hash_times33(key@.subrange(0, i as int)),
        decreases key@.len() - i,
    {
        proof {
            assert(key@.subrange(0, i + 1).drop_last() =~= key@.subrange(0, i as int));
        }
        h = ((h as u64 * 33 + key[i] as u64) % 0x1_0000_0000) as u32;
        i = i + 1;
    }
    proof {
        assert(key@.subrange(0, key@.len() as int) =~= key@);
    }
    h
}

} // verus!
