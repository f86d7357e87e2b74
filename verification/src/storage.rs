//! A key-value store held in memory, with its binary form.

use std::collections::BTreeMap;
use vstd::prelude::*;
use vstd::slice::slice_to_vec;

verus! {

/// Why a value could not be loaded.
#[derive(Debug, Clone, Copy, PartialEq, Eq)]
pub enum LoadError {
    /// Nothing is stored under the key.
    NoSuchKey,
    /// What is stored under the key is not the binary form of the value
    /// asked for.
    InvalidFormat,
}

/// Why a value could not be stored.
#[derive(Debug, Clone, Copy, PartialEq, Eq)]
pub enum StoreError {
    /// The store could not be written. A store in memory never gives it.
    IoError,
}

/// The bytes that bincode, in its default configuration with fixed-width
/// integers, writes for a table of byte strings keyed by text.
pub uninterp spec fn bincode_of_table(table: Map<Seq<char>, Seq<u8>>) -> Seq<u8>;

/// The table that bincode, in the same configuration, reads from `bytes`,
/// where it accepts them.
pub uninterp spec fn table_of_bincode(bytes: Seq<u8>) -> Option<Map<Seq<char>, Seq<u8>>>;

/// Some entry has the key `key`.
spec fn holds_key(entries: Seq<(String, Vec<u8>)>, key: Seq<char>) -> bool {
    exists|i: int| 0 <= i < entries.len() && (#[trigger] entries[i]).0@ == key
}

/// The position of an entry with the key `key`, where there is one.
spec fn position_of(entries: Seq<(String, Vec<u8>)>, key: Seq<char>) -> int {
    choose|i: int| 0 <= i < entries.len() && (#[trigger] entries[i]).0@ == key
}

/// No two entries have the same key.
spec fn distinct_keys(entries: Seq<(String, Vec<u8>)>) -> bool {
    forall|i: int, j: int|
        0 <= i < j < entries.len() ==> (#[trigger] entries[i]).0@ != (#[trigger] entries[j]).0@
}

/// The table that a list of entries stands for.
spec fn table_of(entries: Seq<(String, Vec<u8>)>) -> Map<Seq<char>, Seq<u8>> {
    Map::new(
        |key: Seq<char>| holds_key(entries, key),
        |key: Seq<char>| entries[position_of(entries, key)].1@,
    )
}

/// In a list with distinct keys, each entry is the one found by its key.
proof fn lemma_position_of_entry(entries: Seq<(String, Vec<u8>)>, i: int)
    requires
        distinct_keys(entries),
        0 <= i < entries.len(),
    ensures
        holds_key(entries, entries[i].0@),
        position_of(entries, entries[i].0@) == i,
        table_of(entries).contains_key(entries[i].0@),
        table_of(entries)[entries[i].0@] == entries[i].1@,
{
    let j = position_of(entries, entries[i].0@);
    assert(0 <= j < entries.len() && entries[j].0@ == entries[i].0@);
    if i < j {
        assert(entries[i].0@ != entries[j].0@);
    }
    if j < i {
        assert(entries[j].0@ != entries[i].0@);
    }
}

/// Calls `bincode::serialize` on the entries, gathered into a `BTreeMap`.
/// The contract claims that the bytes written depend on the table alone. The
/// call does not fail here: bincode reports an error only for a size limit,
/// which this configuration does not set, for a collection of unknown length,
/// and for a writer that fails, and it writes into a vector.
#[verifier::external_body]
fn encode_table(entries: &Vec<(String, Vec<u8>)>) -> (bytes: Vec<u8>)
    requires
        distinct_keys(entries@),
    ensures
        bytes@ == bincode_of_table(table_of(entries@)),
{
    let table: BTreeMap<String, Vec<u8>> = entries.iter().cloned().collect();
    bincode::serialize(&table).expect("Failed to serialize")
}

/// Calls `bincode::deserialize` for a `BTreeMap` and hands out its entries.
/// The contract claims that whether the bytes are accepted, and the table
/// read, depend on the bytes alone, and that the entries handed out have
/// distinct keys, as those of a map have.
#[verifier::external_body]
fn decode_table(bytes: &[u8]) -> (entries: Option<Vec<(String, Vec<u8>)>>)
    ensures
        match entries {
            Some(list) => distinct_keys(list@) && table_of_bincode(bytes@) == Some(
                table_of(list@),
            ),
            None => table_of_bincode(bytes@) is None,
        },
{
    match bincode::deserialize::<BTreeMap<String, Vec<u8>>>(bytes) {
        Ok(table) => Some(table.into_iter().collect()),
        Err(_) => None,
    }
}

/// The position of the entry with the key `key`, if there is one.
fn find(entries: &Vec<(String, Vec<u8>)>, key: &str) -> (found: Option<usize>)
    ensures
        match found {
            Some(i) => i < entries@.len() && entries@[i as int].0@ == key@,
            None => !holds_key(entries@, key@),
        },
{
    let wanted = key.to_owned();
    let mut i: usize = 0;
    while i < entries.len()
        invariant
            i <= entries@.len(),
            wanted@ == key@,
            forall|j: int| 0 <= j < i ==> (#[trigger] entries@[j]).0@ != key@,
        decreases entries@.len() - i,
    {
        if entries[i].0 == wanted {
            return Some(i);
        }
        i += 1;
    }
    None
}

/// A store of byte strings under text keys.
pub struct WasmStorage {
    entries: Vec<(String, Vec<u8>)>,
}

impl View for WasmStorage {
    type V = Map<Seq<char>, Seq<u8>>;

    /// The keys of the store, each with the bytes stored under it.
    closed spec fn view(&self) -> Map<Seq<char>, Seq<u8>> {
        table_of(self.entries@)
    }
}

impl WasmStorage {
    #[verifier::type_invariant]
    spec fn well_formed(self) -> bool {
        distinct_keys(self.entries@)
    }

    /// A store without keys.
    pub fn new() -> (storage: Self)
        ensures
            storage@ == Map::<Seq<char>, Seq<u8>>::empty(),
    {
        let storage = WasmStorage { entries: Vec::new() };
        assert(storage@ =~= Map::<Seq<char>, Seq<u8>>::empty());
        storage
    }

    /// Reads a store from its binary form: `None` where the bytes are not the
    /// binary form of a table.
    pub fn from_bytes(bytes: &[u8]) -> (storage: Option<Self>)
        ensures
            match storage {
                Some(s) => table_of_bincode(bytes@) == Some(s@),
                None => table_of_bincode(bytes@) is None,
            },
    {
        match decode_table(bytes) {
            Some(entries) => Some(WasmStorage { entries }),
            None => None,
        }
    }

    /// The binary form of the store.
    pub fn to_bytes(&self) -> (bytes: Vec<u8>)
        ensures
            bytes@ == bincode_of_table(self@),
    {
        proof {
            use_type_invariant(self);
        }
        encode_table(&self.entries)
    }

    /// A copy of the bytes stored under `key`, or `NoSuchKey`.
    pub fn load_raw(&self, key: &str) -> (loaded: Result<Vec<u8>, LoadError>)
        ensures
            match loaded {
                Ok(bytes) => self@.contains_key(key@) && bytes@ == self@[key@],
                Err(e) => !self@.contains_key(key@) && e == LoadError::NoSuchKey,
            },
    {
        proof {
            use_type_invariant(self);
        }
        match find(&self.entries, key) {
            Some(i) => {
                proof {
                    lemma_position_of_entry(self.entries@, i as int);
                }
                Ok(slice_to_vec(self.entries[i].1.as_slice()))
            },
            None => Err(LoadError::NoSuchKey),
        }
    }

    /// Whether anything is stored under `key`.
    pub fn contains_key(&self, key: &str) -> (present: bool)
        ensures
            present == self@.contains_key(key@),
    {
        proof {
            use_type_invariant(self);
        }
        find(&self.entries, key).is_some()
    }

    /// Stores a copy of `value` under `key`, in place of what was stored
    /// there. Every other key keeps its bytes. Always succeeds.
    pub fn store_raw(&mut self, key: &str, value: &[u8]) -> (stored: Result<(), StoreError>)
        ensures
            stored is Ok,
            final(self)@ == old(self)@.insert(key@, value@),
    {
        proof {
            use_type_invariant(&*self);
        }
        let mut entries: Vec<(String, Vec<u8>)> = Vec::new();
        std::mem::swap(&mut entries, &mut self.entries);
        let ghost before = entries@;
        let entry = (key.to_owned(), slice_to_vec(value));
        match find(&entries, key) {
            Some(i) => {
                entries.set(i, entry);
                proof {
                    lemma_replaced(before, i as int, entry);
                }
            },
            None => {
                entries.push(entry);
                proof {
                    lemma_appended(before, entry);
                }
            },
        }
        self.entries = entries;
        Ok(())
    }

    /// Takes out what is stored under `key` and returns it, or `NoSuchKey`
    /// where nothing is, and the store is as before.
    pub fn remove_raw(&mut self, key: &str) -> (removed: Result<Vec<u8>, LoadError>)
        ensures
            match removed {
                Ok(bytes) => old(self)@.contains_key(key@) && bytes@ == old(self)@[key@],
                Err(e) => !old(self)@.contains_key(key@) && e == LoadError::NoSuchKey,
            },
            final(self)@ == old(self)@.remove(key@),
    {
        proof {
            use_type_invariant(&*self);
        }
        let mut entries: Vec<(String, Vec<u8>)> = Vec::new();
        std::mem::swap(&mut entries, &mut self.entries);
        let ghost before = entries@;
        let removed = match find(&entries, key) {
            Some(i) => {
                let entry = entries.remove(i);
                proof {
                    lemma_removed(before, i as int);
                }
                Ok(entry.1)
            },
            None => {
                assert(table_of(before).remove(key@) =~= table_of(before));
                Err(LoadError::NoSuchKey)
            },
        };
        self.entries = entries;
        removed
    }

    /// Takes every key out of the store.
    pub fn clear(&mut self)
        ensures
            final(self)@ == Map::<Seq<char>, Seq<u8>>::empty(),
    {
        self.entries = Vec::new();
        assert(self@ =~= Map::<Seq<char>, Seq<u8>>::empty());
    }
}

/// Replacing the entry at `i` by one with the same key changes the table at
/// that key only.
proof fn lemma_replaced(entries: Seq<(String, Vec<u8>)>, i: int, entry: (String, Vec<u8>))
    requires
        distinct_keys(entries),
        0 <= i < entries.len(),
        entry.0@ == entries[i].0@,
    ensures
        distinct_keys(entries.update(i, entry)),
        table_of(entries.update(i, entry)) == table_of(entries).insert(entry.0@, entry.1@),
{
    let after = entries.update(i, entry);
    assert forall|a: int, b: int| 0 <= a < b < after.len() implies (#[trigger] after[a]).0@ != (
    #[trigger] after[b]).0@ by {
        assert(after[a].0@ == entries[a].0@);
        assert(after[b].0@ == entries[b].0@);
    }
    let wanted = table_of(entries).insert(entry.0@, entry.1@);
    assert forall|key: Seq<char>| table_of(after).contains_key(key) == wanted.contains_key(
        key,
    ) by {
        if holds_key(after, key) {
            let j = position_of(after, key);
            assert(entries[j].0@ == key);
        }
        if holds_key(entries, key) {
            let j = position_of(entries, key);
            assert(after[j].0@ == key);
        }
        if key == entry.0@ {
            assert(after[i].0@ == key);
        }
    }
    assert forall|key: Seq<char>| table_of(after).contains_key(key) implies table_of(after)[key]
        == wanted[key] by {
        let j = position_of(after, key);
        lemma_position_of_entry(after, j);
        lemma_position_of_entry(entries, j);
    }
    assert(table_of(after) =~= wanted);
}

/// Appending an entry whose key is new adds that key to the table.
proof fn lemma_appended(entries: Seq<(String, Vec<u8>)>, entry: (String, Vec<u8>))
    requires
        distinct_keys(entries),
        !holds_key(entries, entry.0@),
    ensures
        distinct_keys(entries.push(entry)),
        table_of(entries.push(entry)) == table_of(entries).insert(entry.0@, entry.1@),
{
    let after = entries.push(entry);
    let last = entries.len() as int;
    assert forall|a: int, b: int| 0 <= a < b < after.len() implies (#[trigger] after[a]).0@ != (
    #[trigger] after[b]).0@ by {
        assert(after[a] == entries[a]);
        if b < last {
            assert(after[b] == entries[b]);
        }
    }
    let wanted = table_of(entries).insert(entry.0@, entry.1@);
    assert forall|key: Seq<char>| table_of(after).contains_key(key) == wanted.contains_key(
        key,
    ) by {
        if holds_key(after, key) {
            let j = position_of(after, key);
            if j < last {
                assert(entries[j].0@ == key);
            }
        }
        if holds_key(entries, key) {
            let j = position_of(entries, key);
            assert(after[j].0@ == key);
        }
        if key == entry.0@ {
            assert(after[last].0@ == key);
        }
    }
    assert forall|key: Seq<char>| table_of(after).contains_key(key) implies table_of(after)[key]
        == wanted[key] by {
        let j = position_of(after, key);
        lemma_position_of_entry(after, j);
        if j < last {
            assert(after[j] == entries[j]);
            lemma_position_of_entry(entries, j);
        }
    }
    assert(table_of(after) =~= wanted);
}

/// Taking out the entry at `i` takes its key out of the table.
proof fn lemma_removed(entries: Seq<(String, Vec<u8>)>, i: int)
    requires
        distinct_keys(entries),
        0 <= i < entries.len(),
    ensures
        distinct_keys(entries.remove(i)),
        table_of(entries).contains_key(entries[i].0@),
        table_of(entries)[entries[i].0@] == entries[i].1@,
        table_of(entries.remove(i)) == table_of(entries).remove(entries[i].0@),
{
    let after = entries.remove(i);
    let gone = entries[i].0@;
    lemma_position_of_entry(entries, i);
    assert forall|a: int| 0 <= a < after.len() implies #[trigger] after[a] == entries[if a < i {
        a
    } else {
        a + 1
    }] by {}
    assert forall|a: int, b: int| 0 <= a < b < after.len() implies (#[trigger] after[a]).0@ != (
    #[trigger] after[b]).0@ by {
        let a0 = if a < i { a } else { a + 1 };
        let b0 = if b < i { b } else { b + 1 };
        assert(after[a] == entries[a0]);
        assert(after[b] == entries[b0]);
    }
    let wanted = table_of(entries).remove(gone);
    assert forall|key: Seq<char>| table_of(after).contains_key(key) == wanted.contains_key(
        key,
    ) by {
        if holds_key(after, key) {
            let j = position_of(after, key);
            let j0 = if j < i { j } else { j + 1 };
            assert(after[j] == entries[j0]);
            assert(entries[j0].0@ == key);
            if key == gone {
                lemma_position_of_entry(entries, j0);
            }
        }
        if holds_key(entries, key) && key != gone {
            let j = position_of(entries, key);
            let j1 = if j < i { j } else { j - 1 };
            assert(after[j1] == entries[j]);
            assert(after[j1].0@ == key);
        }
    }
    assert forall|key: Seq<char>| table_of(after).contains_key(key) implies table_of(after)[key]
        == wanted[key] by {
        let j = position_of(after, key);
        let j0 = if j < i { j } else { j + 1 };
        lemma_position_of_entry(after, j);
        assert(after[j] == entries[j0]);
        lemma_position_of_entry(entries, j0);
    }
    assert(table_of(after) =~= wanted);
}

} // verus!
