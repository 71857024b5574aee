//! Arrays and tables. An array is a growable sequence of elements; a table
//! is an ordered list of key/value string pairs whose keys compare without
//! regard to ASCII case, where one key may occur more than once.

use vstd::prelude::*;
use vstd::string::StringSliceAdditionalSpecFns;
use crate::base64::has_nul;
use crate::pool::Pool;
use crate::text::{ascii_lower, str_bytes, to_ascii_lower};

verus! {

/// An array of raw elements, each `elt_size` bytes long.
pub struct Array {
    elt_size: usize,
    elts: Vec<Vec<u8>>,
}

impl Array {
    /// The elements of the array.
    pub closed spec fn spec_elts(&self) -> Seq<Seq<u8>> {
        self.elts@.map_values(|e: Vec<u8>| e@)
    }

    /// The size of each element in bytes.
    pub closed spec fn spec_elt_size(&self) -> nat {
        self.elt_size as nat
    }

    /// Create an empty array for elements of `elt_size` bytes, with room
    /// for `nelts` of them.
    pub fn new(_pool: &Pool, nelts: i32, elt_size: i32) -> (r: Self)
        requires
            elt_size >= 0,
        ensures
            r.spec_elts() == Seq::<Seq<u8>>::empty(),
            r.spec_elt_size() == elt_size,
    {
        let r = Array { elt_size: elt_size as usize, elts: Vec::new() };
        proof {
            assert(r.spec_elts() =~= Seq::<Seq<u8>>::empty());
        }
        r
    }

    /// Append an element given by its bytes.
    pub fn push_raw(&mut self, data: &[u8])
        requires
            data@.len() == old(self).spec_elt_size(),
        ensures
            final(self).spec_elts() == old(self).spec_elts().push(data@),
            final(self).spec_elt_size() == old(self).spec_elt_size(),
    {
        let mut v: Vec<u8> = Vec::new();
        let mut i: usize = 0;
        while i < data.len()
            invariant
                i <= data@.len(),
                v@ == data@.subrange(0, i as int),
            decreases data@.len() - i,
        {
            v.push(data[i]);
            i = i + 1;
        }
        proof {
            assert(data@.subrange(0, data@.len() as int) =~= data@);
        }
        self.elts.push(v);
        proof {
            assert(self.spec_elts() =~= old(self).spec_elts().push(data@));
        }
    }

    /// The bytes of the element at `index`.
    pub fn get_raw(&self, index: usize) -> (r: &[u8])
        requires
            index < self.spec_elts().len(),
        ensures
            r@ == self.spec_elts()[index as int],
    {
        self.elts[index].as_slice()
    }

    /// The number of elements.
    pub fn len(&self) -> (r: usize)
        ensures
            r == self.spec_elts().len(),
    {
        self.elts.len()
    }

    /// Whether the array has no elements.
    pub fn is_empty(&self) -> (r: bool)
        ensures
            r == (self.spec_elts().len() == 0),
    {
        self.len() == 0
    }

    /// Remove every element.
    pub fn clear(&mut self)
        ensures
            final(self).spec_elts() == Seq::<Seq<u8>>::empty(),
            final(self).spec_elt_size() == old(self).spec_elt_size(),
    {
        self.elts = Vec::new();
        proof {
            assert(self.spec_elts() =~= Seq::<Seq<u8>>::empty());
        }
    }
}

/// An array of values of a copyable type.
pub struct TypedArray<T: Copy> {
    items: Vec<T>,
}

impl<T: Copy> TypedArray<T> {
    /// The elements of the array.
    pub closed spec fn spec_items(&self) -> Seq<T> {
        self.items@
    }

    /// Create an empty array with room for `initial_size` elements.
    pub fn new(_pool: &Pool, initial_size: i32) -> (r: Self)
        ensures
            r.spec_items() == Seq::<T>::empty(),
    {
        TypedArray { items: Vec::new() }
    }

    /// Append a value.
    pub fn push(&mut self, value: T)
        ensures
            final(self).spec_items() == old(self).spec_items().push(value),
    {
        self.items.push(value);
    }

    /// The value at `index`, or None past the end.
    pub fn get(&self, index: usize) -> (r: Option<T>)
        ensures
            index < self.spec_items().len() ==> r == Some(self.spec_items()[index as int]),
            index >= self.spec_items().len() ==> r is None,
    {
        if index >= self.items.len() {
            return None;
        }
        Some(self.items[index])
    }

    /// The number of elements.
    pub fn len(&self) -> (r: usize)
        ensures
            r == self.spec_items().len(),
    {
        self.items.len()
    }

    /// Whether the array has no elements.
    pub fn is_empty(&self) -> (r: bool)
        ensures
            r == (self.spec_items().len() == 0),
    {
        self.items.len() == 0
    }

    /// Remove every element.
    pub fn clear(&mut self)
        ensures
            final(self).spec_items() == Seq::<T>::empty(),
    {
        self.items = Vec::new();
    }

    /// An iterator over the values, first to last.
    pub fn iter(&self) -> (r: TypedArrayIter<'_, T>)
        ensures
            r.spec_array() == self,
            r.spec_index() == 0,
    {
        TypedArrayIter { array: self, index: 0 }
    }

    /// The values of the array, first to last.
    pub fn to_vec(&self) -> (r: Vec<T>)
        ensures
            r@ == self.spec_items(),
    {
        let mut r: Vec<T> = Vec::new();
        let mut i: usize = 0;
        while i < self.items.len()
            invariant
                i <= self.items@.len(),
                r@ == self.items@.subrange(0, i as int),
            decreases self.items@.len() - i,
        {
            r.push(self.items[i]);
            i = i + 1;
        }
        proof {
            assert(self.items@.subrange(0, self.items@.len() as int) =~= self.items@);
        }
        r
    }

    /// An array holding the given values, in order.
    pub fn from_iter(pool: &Pool, values: Vec<T>) -> (r: Self)
        ensures
            r.spec_items() == values@,
    {
        let mut array = Self::new(pool, 0);
        let mut i: usize = 0;
        while i < values.len()
            invariant
                i <= values@.len(),
                array.spec_items() == values@.subrange(0, i as int),
            decreases values@.len() - i,
        {
            array.push(values[i]);
            proof {
                assert(values@.subrange(0, i + 1) =~= values@.subrange(0, i as int).push(values@[i as int]));
            }
            i = i + 1;
        }
        proof {
            assert(values@.subrange(0, values@.len() as int) =~= values@);
        }
        array
    }

    /// Append every given value, in order.
    pub fn extend(&mut self, values: Vec<T>)
        ensures
            final(self).spec_items() == old(self).spec_items() + values@,
    {
        let mut i: usize = 0;
        let ghost start = self.items@;
        while i < values.len()
            invariant
                i <= values@.len(),
                self.spec_items() == start + values@.subrange(0, i as int),
            decreases values@.len() - i,
        {
            self.push(values[i]);
            proof {
                assert(values@.subrange(0, i + 1) =~= values@.subrange(0, i as int).push(values@[i as int]));
            }
            i = i + 1;
        }
        proof {
            assert(values@.subrange(0, values@.len() as int) =~= values@);
        }
    }
}

/// A cursor over the values of a typed array.
pub struct TypedArrayIter<'a, T: Copy> {
    array: &'a TypedArray<T>,
    index: usize,
}

impl<'a, T: Copy> TypedArrayIter<'a, T> {
    /// The array walked.
    pub closed spec fn spec_array(&self) -> &'a TypedArray<T> {
        self.array
    }

    /// The position of the next value.
    pub closed spec fn spec_index(&self) -> nat {
        self.index as nat
    }

    /// The next value, or None at the end.
    pub fn next(&mut self) -> (r: Option<T>)
        ensures
            final(self).spec_array() == old(self).spec_array(),
            old(self).spec_index() < old(self).spec_array().spec_items().len() ==> r == Some(
                old(self).spec_array().spec_items()[old(self).spec_index() as int],
            ) && final(self).spec_index() == old(self).spec_index() + 1,
            old(self).spec_index() >= old(self).spec_array().spec_items().len() ==> r is None
                && final(self).spec_index() == old(self).spec_index(),
    {
        if self.index < self.array.len() {
            let value = self.array.get(self.index);
            self.index = self.index + 1;
            value
        } else {
            None
        }
    }
}

/// Whether two keys are the same key: equal bytes once ASCII letters are
/// folded to lowercase.
pub open spec fn keys_equal(a: Seq<char>, b: Seq<char>) -> bool {
    let x = vstd::utf8::encode_utf8(a);
    let y = vstd::utf8::encode_utf8(b);
    x.len() == y.len() && forall|i: int| 0 <= i < x.len() ==> ascii_lower(#[trigger] x[i]) == ascii_lower(y[i])
}

/// A table entry: key and value.
pub type Entry = (Seq<char>, Seq<char>);

/// The value of the first entry with the given key.
pub open spec fn spec_table_get(es: Seq<Entry>, key: Seq<char>) -> Option<Seq<char>>
    decreases es.len(),
{
    if es.len() == 0 {
        None
    } else {
        match spec_table_get(es.drop_last(), key) {
            Some(v) => Some(v),
            None => if keys_equal(es.last().0, key) {
                Some(es.last().1)
            } else {
                None
            },
        }
    }
}

/// Walking the entries for `set`: the first entry with the key keeps its
/// place and spelling and takes the new value; later entries with the key
/// go. The flag tells whether the key was met.
pub open spec fn set_walk(es: Seq<Entry>, key: Seq<char>, val: Seq<char>) -> (Seq<Entry>, bool)
    decreases es.len(),
{
    if es.len() == 0 {
        (seq![], false)
    } else {
        let (acc, found) = set_walk(es.drop_last(), key, val);
        let e = es.last();
        if keys_equal(e.0, key) {
            if found {
                (acc, true)
            } else {
                (acc.push((e.0, val)), true)
            }
        } else {
            (acc.push(e), found)
        }
    }
}

/// The entries after `set`: as the walk leaves them, with the pair appended
/// when the key was not there.
pub open spec fn spec_table_set(es: Seq<Entry>, key: Seq<char>, val: Seq<char>) -> Seq<Entry> {
    let (acc, found) = set_walk(es, key, val);
    if found {
        acc
    } else {
        acc.push((key, val))
    }
}

/// The entries after `unset`: every entry with the key goes.
pub open spec fn spec_table_unset(es: Seq<Entry>, key: Seq<char>) -> Seq<Entry>
    decreases es.len(),
{
    if es.len() == 0 {
        seq![]
    } else {
        let acc = spec_table_unset(es.drop_last(), key);
        if keys_equal(es.last().0, key) {
            acc
        } else {
            acc.push(es.last())
        }
    }
}

/// A table of string key/value pairs.
pub struct Table {
    entries: Vec<(String, String)>,
}

/// The key/value view of stored pairs.
pub open spec fn entries_view(v: Seq<(String, String)>) -> Seq<Entry> {
    v.map_values(|e: (String, String)| (e.0@, e.1@))
}

/// Whether two keys are the same key, as code.
fn same_key(a: &str, b: &str) -> (r: bool)
    ensures
        r == keys_equal(a@, b@),
{
    let x = str_bytes(a);
    let y = str_bytes(b);
    if x.len() != y.len() {
        return false;
    }
    let mut i: usize = 0;
    while i < x.len()
        invariant
            x@ == a.spec_bytes(),
            y@ == b.spec_bytes(),
            x@.len() == y@.len(),
            i <= x@.len(),
            forall|j: int| 0 <= j < i ==> ascii_lower(#[trigger] x@[j]) == ascii_lower(y@[j]),
        decreases x@.len() - i,
    {
        if to_ascii_lower(x[i]) != to_ascii_lower(y[i]) {
            return false;
        }
        i = i + 1;
    }
    true
}

impl Table {
    /// The entries of the table, in order.
    pub closed spec fn spec_entries(&self) -> Seq<Entry> {
        entries_view(self.entries@)
    }

    /// Create an empty table with room for `nelts` entries.
    pub fn new(_pool: &Pool, nelts: i32) -> (r: Self)
        ensures
            r.spec_entries() == Seq::<Entry>::empty(),
    {
        let r = Table { entries: Vec::new() };
        proof {
            assert(r.spec_entries() =~= Seq::<Entry>::empty());
        }
        r
    }

    /// The number of entries.
    pub fn len(&self) -> (r: usize)
        ensures
            r == self.spec_entries().len(),
    {
        self.entries.len()
    }

    /// Whether the table has no entries.
    pub fn is_empty(&self) -> (r: bool)
        ensures
            r == (self.spec_entries().len() == 0),
    {
        self.len() == 0
    }

    /// Remove every entry.
    pub fn clear(&mut self)
        ensures
            final(self).spec_entries() == Seq::<Entry>::empty(),
    {
        self.entries = Vec::new();
        proof {
            assert(self.spec_entries() =~= Seq::<Entry>::empty());
        }
    }

    /// Set `key` to `val`: the first entry with the key takes the value and
    /// later entries with the key go; without such an entry the pair is
    /// appended.
    pub fn set(&mut self, key: &str, val: &str)
        ensures
            final(self).spec_entries() == spec_table_set(old(self).spec_entries(), key@, val@),
    {
        let ghost es = self.spec_entries();
        let mut out: Vec<(String, String)> = Vec::new();
        let mut found = false;
        let mut i: usize = 0;
        while i < self.entries.len()
            invariant
                es == entries_view(self.entries@),
                i <= self.entries@.len(),
                (entries_view(out@), found) == set_walk(es.subrange(0, i as int), key@, val@),
            decreases self.entries@.len() - i,
        {
            let k = self.entries[i].0.as_str();
            proof {
                assert(es.subrange(0, i + 1).drop_last() =~= es.subrange(0, i as int));
            }
            if same_key(k, key) {
                if !found {
                    out.push((self.entries[i].0.clone(), val.to_owned()));
                    found = true;
                    proof {
                        assert(entries_view(out@) =~= set_walk(es.subrange(0, i as int), key@, val@).0.push((es[i as int].0, val@)));
                    }
                }
            } else {
                out.push((self.entries[i].0.clone(), self.entries[i].1.clone()));
                proof {
                    assert(entries_view(out@) =~= set_walk(es.subrange(0, i as int), key@, val@).0.push(es[i as int]));
                }
            }
            i = i + 1;
        }
        proof {
            assert(es.subrange(0, self.entries@.len() as int) =~= es);
        }
        if !found {
            out.push((key.to_owned(), val.to_owned()));
        }
        self.entries = out;
        proof {
            assert(self.spec_entries() =~= spec_table_set(es, key@, val@));
        }
    }

    /// The value of the first entry with `key`, if any.
    pub fn get(&self, key: &str) -> (r: Option<&str>)
        ensures
            match r {
                Some(v) => spec_table_get(self.spec_entries(), key@) == Some(v@),
                None => spec_table_get(self.spec_entries(), key@) is None,
            },
    {
        let ghost es = self.spec_entries();
        let mut i: usize = 0;
        while i < self.entries.len()
            invariant
                es == entries_view(self.entries@),
                i <= self.entries@.len(),
                spec_table_get(es.subrange(0, i as int), key@) is None,
            decreases self.entries@.len() - i,
        {
            proof {
                assert(es.subrange(0, i + 1).drop_last() =~= es.subrange(0, i as int));
            }
            if same_key(self.entries[i].0.as_str(), key) {
                proof {
                    lemma_get_prefix(es, key@, i as int);
                }
                return Some(self.entries[i].1.as_str());
            }
            i = i + 1;
        }
        proof {
            assert(es.subrange(0, self.entries@.len() as int) =~= es);
        }
        None
    }

    /// Append the pair, keeping any entries that have the same key.
    pub fn add(&mut self, key: &str, val: &str)
        ensures
            final(self).spec_entries() == old(self).spec_entries().push((key@, val@)),
    {
        self.entries.push((key.to_owned(), val.to_owned()));
        proof {
            assert(self.spec_entries() =~= old(self).spec_entries().push((key@, val@)));
        }
    }

    /// Remove every entry with `key`.
    pub fn unset(&mut self, key: &str)
        ensures
            final(self).spec_entries() == spec_table_unset(old(self).spec_entries(), key@),
    {
        let ghost es = self.spec_entries();
        let mut out: Vec<(String, String)> = Vec::new();
        let mut i: usize = 0;
        while i < self.entries.len()
            invariant
                es == entries_view(self.entries@),
                i <= self.entries@.len(),
                entries_view(out@) == spec_table_unset(es.subrange(0, i as int), key@),
            decreases self.entries@.len() - i,
        {
            proof {
                assert(es.subrange(0, i + 1).drop_last() =~= es.subrange(0, i as int));
            }
            if !same_key(self.entries[i].0.as_str(), key) {
                out.push((self.entries[i].0.clone(), self.entries[i].1.clone()));
                proof {
                    assert(entries_view(out@) =~= spec_table_unset(es.subrange(0, i as int), key@).push(es[i as int]));
                }
            }
            i = i + 1;
        }
        proof {
            assert(es.subrange(0, self.entries@.len() as int) =~= es);
        }
        self.entries = out;
    }

    /// The key and value of the entry at `index`.
    pub fn entry(&self, index: usize) -> (r: (&str, &str))
        requires
            index < self.spec_entries().len(),
        ensures
            (r.0@, r.1@) == self.spec_entries()[index as int],
    {
        (self.entries[index].0.as_str(), self.entries[index].1.as_str())
    }
}

/// If the first entry with a key lies at `i`, the lookup finds it.
proof fn lemma_get_prefix(es: Seq<Entry>, key: Seq<char>, i: int)
    requires
        0 <= i < es.len(),
        spec_table_get(es.subrange(0, i), key) is None,
        keys_equal(es[i].0, key),
    ensures
        spec_table_get(es, key) == Some(es[i].1),
    decreases es.len() - i,
{
    if i + 1 < es.len() {
        let s = es.subrange(0, i + 1);
        assert(s.drop_last() =~= es.subrange(0, i));
        lemma_get_extend(es, key, i + 1);
    } else {
        assert(es.drop_last() =~= es.subrange(0, i));
    }
}

/// A lookup that succeeds on a prefix succeeds the same way on the whole.
proof fn lemma_get_extend(es: Seq<Entry>, key: Seq<char>, n: int)
    requires
        0 <= n <= es.len(),
        spec_table_get(es.subrange(0, n), key) is Some,
    ensures
        spec_table_get(es, key) == spec_table_get(es.subrange(0, n), key),
    decreases es.len() - n,
{
    if n < es.len() {
        let s = es.subrange(0, n + 1);
        assert(s.drop_last() =~= es.subrange(0, n));
        lemma_get_extend(es, key, n + 1);
    } else {
        assert(es.subrange(0, n) =~= es);
    }
}

/// A table of string key/value pairs.
pub struct StringTable {
    inner: Table,
}

impl StringTable {
    /// The entries of the table, in order.
    pub closed spec fn spec_entries(&self) -> Seq<Entry> {
        self.inner.spec_entries()
    }

    /// Create an empty table with room for `initial_size` entries.
    pub fn new(pool: &Pool, initial_size: i32) -> (r: Self)
        ensures
            r.spec_entries() == Seq::<Entry>::empty(),
    {
        StringTable { inner: Table::new(pool, initial_size) }
    }

    /// Set a key to a value, replacing the entries with that key. Keys and
    /// values holding a NUL byte cannot be copied into the table.
    pub fn set(&mut self, key: &str, value: &str)
        requires
            !has_nul(key.spec_bytes()),
            !has_nul(value.spec_bytes()),
        ensures
            final(self).spec_entries() == spec_table_set(old(self).spec_entries(), key@, value@),
    {
        self.inner.set(key, value)
    }

    /// The value of the first entry with the key; a key holding a NUL byte
    /// finds nothing.
    pub fn get(&self, key: &str) -> (r: Option<&str>)
        ensures
            has_nul(key.spec_bytes()) ==> r is None,
            !has_nul(key.spec_bytes()) ==> match r {
                Some(v) => spec_table_get(self.spec_entries(), key@) == Some(v@),
                None => spec_table_get(self.spec_entries(), key@) is None,
            },
    {
        let kb = str_bytes(key);
        if crate::strmatch::bytes_hold_nul(&kb) {
            return None;
        }
        self.inner.get(key)
    }

    /// Add a pair, keeping entries with the same key.
    pub fn add(&mut self, key: &str, value: &str)
        requires
            !has_nul(key.spec_bytes()),
            !has_nul(value.spec_bytes()),
        ensures
            final(self).spec_entries() == old(self).spec_entries().push((key@, value@)),
    {
        self.inner.add(key, value)
    }

    /// Remove every entry with the key; a key holding a NUL byte removes
    /// nothing.
    pub fn unset(&mut self, key: &str)
        ensures
            has_nul(key.spec_bytes()) ==> final(self).spec_entries() == old(self).spec_entries(),
            !has_nul(key.spec_bytes()) ==> final(self).spec_entries() == spec_table_unset(
                old(self).spec_entries(),
                key@,
            ),
    {
        let kb = str_bytes(key);
        if crate::strmatch::bytes_hold_nul(&kb) {
            return;
        }
        self.inner.unset(key)
    }

    /// The number of entries.
    pub fn len(&self) -> (r: usize)
        ensures
            r == self.spec_entries().len(),
    {
        self.inner.len()
    }

    /// Whether the table has no entries.
    pub fn is_empty(&self) -> (r: bool)
        ensures
            r == (self.spec_entries().len() == 0),
    {
        self.inner.is_empty()
    }

    /// Remove every entry.
    pub fn clear(&mut self)
        ensures
            final(self).spec_entries() == Seq::<Entry>::empty(),
    {
        self.inner.clear()
    }

    /// A cursor over the entries, first to last.
    pub fn iter(&self) -> (r: StringTableIter<'_>)
        ensures
            r.spec_table() == self,
            r.spec_index() == 0,
    {
        StringTableIter { table: self, index: 0 }
    }

    /// A table holding the given pairs, each set in turn.
    pub fn from_iter(pool: &Pool, pairs: Vec<(&str, &str)>) -> (r: Self)
        requires
            pairs_clean(pairs_view(pairs@)),
        ensures
            r.spec_entries() == set_all(Seq::<Entry>::empty(), pairs_view(pairs@)),
    {
        let mut table = Self::new(pool, 16);
        table.extend(pairs);
        table
    }

    /// Set each given pair of owned strings in turn.
    pub fn extend_owned(&mut self, pairs: Vec<(String, String)>)
        requires
            pairs_clean(entries_view(pairs@)),
        ensures
            final(self).spec_entries() == set_all(old(self).spec_entries(), entries_view(pairs@)),
    {
        let mut i: usize = 0;
        let ghost start = self.spec_entries();
        while i < pairs.len()
            invariant
                i <= pairs@.len(),
                pairs_clean(entries_view(pairs@)),
                self.spec_entries() == set_all(start, entries_view(pairs@).subrange(0, i as int)),
            decreases pairs@.len() - i,
        {
            let k = pairs[i].0.as_str();
            let v = pairs[i].1.as_str();
            proof {
                assert(entries_view(pairs@)[i as int] == (k@, v@));
                assert(!has_nul(vstd::utf8::encode_utf8(entries_view(pairs@)[i as int].0)));
            }
            self.set(k, v);
            proof {
                assert(entries_view(pairs@).subrange(0, i + 1).drop_last() =~= entries_view(pairs@).subrange(0, i as int));
            }
            i = i + 1;
        }
        proof {
            assert(entries_view(pairs@).subrange(0, pairs@.len() as int) =~= entries_view(pairs@));
        }
    }

    /// Set each given pair in turn.
    pub fn extend(&mut self, pairs: Vec<(&str, &str)>)
        requires
            pairs_clean(pairs_view(pairs@)),
        ensures
            final(self).spec_entries() == set_all(old(self).spec_entries(), pairs_view(pairs@)),
    {
        let mut i: usize = 0;
        let ghost start = self.spec_entries();
        while i < pairs.len()
            invariant
                i <= pairs@.len(),
                pairs_clean(pairs_view(pairs@)),
                self.spec_entries() == set_all(start, pairs_view(pairs@).subrange(0, i as int)),
            decreases pairs@.len() - i,
        {
            let (k, v) = pairs[i];
            proof {
                assert(pairs_view(pairs@)[i as int] == (k@, v@));
                assert(!has_nul(vstd::utf8::encode_utf8(pairs_view(pairs@)[i as int].0)));
            }
            self.set(k, v);
            proof {
                assert(pairs_view(pairs@).subrange(0, i + 1).drop_last() =~= pairs_view(pairs@).subrange(0, i as int));
            }
            i = i + 1;
        }
        proof {
            assert(pairs_view(pairs@).subrange(0, pairs@.len() as int) =~= pairs_view(pairs@));
        }
    }
}

/// Whether no key or value of the pairs holds a NUL byte.
pub open spec fn pairs_clean(p: Seq<Entry>) -> bool {
    forall|i: int| 0 <= i < p.len() ==> !has_nul(vstd::utf8::encode_utf8(#[trigger] p[i].0))
        && !has_nul(vstd::utf8::encode_utf8(p[i].1))
}

/// The key/value view of string slice pairs.
pub open spec fn pairs_view(p: Seq<(&str, &str)>) -> Seq<Entry> {
    p.map_values(|e: (&str, &str)| (e.0@, e.1@))
}

/// The entries after setting each pair in turn.
pub open spec fn set_all(es: Seq<Entry>, pairs: Seq<Entry>) -> Seq<Entry>
    decreases pairs.len(),
{
    if pairs.len() == 0 {
        es
    } else {
        spec_table_set(set_all(es, pairs.drop_last()), pairs.last().0, pairs.last().1)
    }
}

/// A cursor over the entries of a string table.
pub struct StringTableIter<'a> {
    table: &'a StringTable,
    index: usize,
}

impl<'a> StringTableIter<'a> {
    /// The table walked.
    pub closed spec fn spec_table(&self) -> &'a StringTable {
        self.table
    }

    /// The position of the next entry.
    pub closed spec fn spec_index(&self) -> nat {
        self.index as nat
    }

    /// The next entry, or None at the end.
    pub fn next(&mut self) -> (r: Option<(&'a str, &'a str)>)
        ensures
            final(self).spec_table() == old(self).spec_table(),
            old(self).spec_index() < old(self).spec_table().spec_entries().len() ==> (r matches Some(
                e,
            ) && (e.0@, e.1@) == old(self).spec_table().spec_entries()[old(self).spec_index() as int]
                && final(self).spec_index() == old(self).spec_index() + 1),
            old(self).spec_index() >= old(self).spec_table().spec_entries().len() ==> r is None
                && final(self).spec_index() == old(self).spec_index(),
            (match r {
                Some(e) => Some((e.0@, e.1@)),
                None => None,
            }) == table_walk_item(
                old(self).spec_table().spec_entries(),
                old(self).spec_index() as int,
            ),
    {
        if self.index < self.table.inner.entries.len() {
            let e = self.table.inner.entry(self.index);
            self.index = self.index + 1;
            Some(e)
        } else {
            None
        }
    }
}

/// Key equality is reflexive, symmetric and transitive.
pub proof fn lemma_keys_equal_equivalence(a: Seq<char>, b: Seq<char>, c: Seq<char>)
    ensures
        keys_equal(a, a),
        keys_equal(a, b) ==> keys_equal(b, a),
        keys_equal(a, b) && keys_equal(b, c) ==> keys_equal(a, c),
{
    let x = vstd::utf8::encode_utf8(a);
    let y = vstd::utf8::encode_utf8(b);
    let z = vstd::utf8::encode_utf8(c);
    if keys_equal(a, b) {
        assert forall|i: int| 0 <= i < y.len() implies ascii_lower(#[trigger] y[i]) == ascii_lower(x[i]) by {
            assert(ascii_lower(x[i]) == ascii_lower(y[i]));
        }
    }
    if keys_equal(a, b) && keys_equal(b, c) {
        assert forall|i: int| 0 <= i < x.len() implies ascii_lower(#[trigger] x[i]) == ascii_lower(z[i]) by {
            assert(ascii_lower(x[i]) == ascii_lower(y[i]));
            assert(ascii_lower(y[i]) == ascii_lower(z[i]));
        }
    }
}

/// Looking up in a sequence with one more entry at the end.
proof fn lemma_get_push(es: Seq<Entry>, e: Entry, key: Seq<char>)
    ensures
        spec_table_get(es.push(e), key) == match spec_table_get(es, key) {
            Some(v) => Some(v),
            None => if keys_equal(e.0, key) {
                Some(e.1)
            } else {
                None
            },
        },
{
    assert(es.push(e).drop_last() =~= es);
}

/// The walk of `set` meets the key exactly when an entry has it; what it
/// leaves holds the new value under the key.
proof fn lemma_set_walk_key(es: Seq<Entry>, key: Seq<char>, val: Seq<char>)
    ensures
        set_walk(es, key, val).1 == (exists|i: int| 0 <= i < es.len() && keys_equal(#[trigger] es[i].0, key)),
        set_walk(es, key, val).1 ==> spec_table_get(set_walk(es, key, val).0, key) == Some(val),
        !set_walk(es, key, val).1 ==> spec_table_get(set_walk(es, key, val).0, key) is None,
    decreases es.len(),
{
    if es.len() > 0 {
        let es2 = es.drop_last();
        let e = es.last();
        lemma_set_walk_key(es2, key, val);
        let (acc, found) = set_walk(es2, key, val);
        lemma_get_push(acc, (e.0, val), key);
        lemma_get_push(acc, e, key);
        if set_walk(es, key, val).1 {
            if !found {
                assert(keys_equal(es[es.len() - 1].0, key));
            } else {
                let i = choose|i: int| 0 <= i < es2.len() && keys_equal(#[trigger] es2[i].0, key);
                assert(es[i] == es2[i]);
            }
        } else {
            assert forall|i: int| 0 <= i < es.len() implies !keys_equal(#[trigger] es[i].0, key) by {
                if i < es2.len() {
                    assert(es[i] == es2[i]);
                }
            }
        }
    }
}

/// The walk of `set` leaves lookups of other keys as they were.
proof fn lemma_set_walk_other(es: Seq<Entry>, key: Seq<char>, val: Seq<char>, other: Seq<char>)
    requires
        !keys_equal(other, key),
    ensures
        spec_table_get(set_walk(es, key, val).0, other) == spec_table_get(es, other),
    decreases es.len(),
{
    if es.len() > 0 {
        let es2 = es.drop_last();
        let e = es.last();
        lemma_set_walk_other(es2, key, val, other);
        let (acc, found) = set_walk(es2, key, val);
        lemma_get_push(acc, (e.0, val), other);
        lemma_get_push(acc, e, other);
        lemma_get_push(es2, e, other);
        assert(es2.push(e) =~= es);
        lemma_keys_equal_equivalence(e.0, key, other);
        lemma_keys_equal_equivalence(e.0, other, key);
        lemma_keys_equal_equivalence(other, e.0, key);
    }
}

/// After `set`, looking the key up gives the value that was set.
pub proof fn law_table_set_then_get(es: Seq<Entry>, key: Seq<char>, val: Seq<char>)
    ensures
        spec_table_get(spec_table_set(es, key, val), key) == Some(val),
{
    lemma_set_walk_key(es, key, val);
    let (acc, found) = set_walk(es, key, val);
    lemma_get_push(acc, (key, val), key);
    lemma_keys_equal_equivalence(key, key, key);
}

/// `set` does not change what other keys look up to.
pub proof fn law_table_set_keeps_others(es: Seq<Entry>, key: Seq<char>, val: Seq<char>, other: Seq<char>)
    requires
        !keys_equal(other, key),
    ensures
        spec_table_get(spec_table_set(es, key, val), other) == spec_table_get(es, other),
{
    lemma_set_walk_other(es, key, val, other);
    let (acc, found) = set_walk(es, key, val);
    lemma_get_push(acc, (key, val), other);
    lemma_keys_equal_equivalence(key, other, other);
}

/// The entries `unset` keeps: looking the key up finds nothing, other keys
/// look up as before.
proof fn lemma_unset_get(es: Seq<Entry>, key: Seq<char>, other: Seq<char>)
    ensures
        spec_table_get(spec_table_unset(es, key), key) is None,
        !keys_equal(other, key) ==> spec_table_get(spec_table_unset(es, key), other)
            == spec_table_get(es, other),
    decreases es.len(),
{
    if es.len() > 0 {
        let es2 = es.drop_last();
        let e = es.last();
        lemma_unset_get(es2, key, other);
        let acc = spec_table_unset(es2, key);
        lemma_get_push(acc, e, key);
        lemma_get_push(acc, e, other);
        lemma_get_push(es2, e, other);
        assert(es2.push(e) =~= es);
        lemma_keys_equal_equivalence(e.0, key, other);
        lemma_keys_equal_equivalence(e.0, other, key);
        lemma_keys_equal_equivalence(other, e.0, key);
    }
}

/// After `unset`, the key finds nothing, and other keys find what they
/// found before.
pub proof fn law_table_unset_then_get(es: Seq<Entry>, key: Seq<char>, other: Seq<char>)
    ensures
        spec_table_get(spec_table_unset(es, key), key) is None,
        !keys_equal(other, key) ==> spec_table_get(spec_table_unset(es, key), other)
            == spec_table_get(es, other),
{
    lemma_unset_get(es, key, other);
}

/// `add` keeps the first value of a key: the added value is found only when
/// the key was absent.
pub proof fn law_table_add_then_get(es: Seq<Entry>, key: Seq<char>, val: Seq<char>)
    ensures
        spec_table_get(es.push((key, val)), key) == match spec_table_get(es, key) {
            Some(v) => Some(v),
            None => Some(val),
        },
{
    lemma_get_push(es, (key, val), key);
    lemma_keys_equal_equivalence(key, key, key);
}

/// How many entries have the given key.
pub open spec fn count_key(es: Seq<Entry>, key: Seq<char>) -> nat
    decreases es.len(),
{
    if es.len() == 0 {
        0
    } else {
        count_key(es.drop_last(), key) + if keys_equal(es.last().0, key) { 1nat } else { 0nat }
    }
}

/// The walk of `set` keeps exactly one entry with the key when it met one.
proof fn lemma_set_walk_count(es: Seq<Entry>, key: Seq<char>, val: Seq<char>)
    ensures
        count_key(set_walk(es, key, val).0, key) == if set_walk(es, key, val).1 { 1nat } else { 0nat },
    decreases es.len(),
{
    if es.len() > 0 {
        let es2 = es.drop_last();
        lemma_set_walk_count(es2, key, val);
        let (acc, found) = set_walk(es2, key, val);
        let e = es.last();
        assert(acc.push((e.0, val)).drop_last() =~= acc);
        assert(acc.push(e).drop_last() =~= acc);
    }
}

/// After `set`, exactly one entry has the key.
pub proof fn law_table_set_leaves_one(es: Seq<Entry>, key: Seq<char>, val: Seq<char>)
    ensures
        count_key(spec_table_set(es, key, val), key) == 1,
{
    lemma_set_walk_count(es, key, val);
    let (acc, found) = set_walk(es, key, val);
    assert(acc.push((key, val)).drop_last() =~= acc);
    lemma_keys_equal_equivalence(key, key, key);
}

/// What a cursor over a table hands out at a position: the entry there, or
/// nothing past the last one.
pub open spec fn table_walk_item(es: Seq<Entry>, i: int) -> Option<Entry> {
    if 0 <= i < es.len() {
        Some(es[i])
    } else {
        None
    }
}

/// Walking a table from its start hands out exactly its entries, in the
/// order they were made, one per step, and then nothing: as many as the
/// table's length. Entries that share a key all come out: after `set(k, v)`
/// and `add(k, w)`, two entries with the key are walked, the added one
/// last.
pub proof fn law_string_table_walk(t: &StringTable, k: Seq<char>, v: Seq<char>, w: Seq<char>)
    ensures
        forall|i: int|
            0 <= i < t.spec_entries().len() ==> #[trigger] table_walk_item(t.spec_entries(), i)
                == Some(t.spec_entries()[i]),
        forall|i: int|
            i >= t.spec_entries().len() ==> #[trigger] table_walk_item(t.spec_entries(), i)
                is None,
        count_key(spec_table_set(t.spec_entries(), k, v).push((k, w)), k) == 2,
        table_walk_item(
            spec_table_set(t.spec_entries(), k, v).push((k, w)),
            spec_table_set(t.spec_entries(), k, v).len() as int,
        ) == Some((k, w)),
{
    law_table_set_leaves_one(t.spec_entries(), k, v);
    let s = spec_table_set(t.spec_entries(), k, v);
    assert(s.push((k, w)).drop_last() =~= s);
    lemma_keys_equal_equivalence(k, k, k);
}

} // verus!
