//! Tables of numbers under textual keys.

use crate::text::{characters, equals};
use vstd::prelude::*;

verus! {

/// A number and the key that it stands under.
pub struct Entry {
    pub key: String,
    pub value: u64,
}

/// What a list of entries says, where a later entry replaces an earlier one.
pub open spec fn entries_map(entries: Seq<Entry>) -> Map<Seq<char>, u64>
    decreases entries.len(),
{
    if entries.len() == 0 {
        Map::empty()
    } else {
        entries_map(entries.drop_last()).insert(entries.last().key@, entries.last().value)
    }
}

/// Numbers under textual keys.
pub struct Table {
    entries: Vec<Entry>,
}

impl View for Table {
    type V = Map<Seq<char>, u64>;

    closed spec fn view(&self) -> Map<Seq<char>, u64> {
        entries_map(self.entries@)
    }
}

/// The number under a key.
pub open spec fn lookup(map: Map<Seq<char>, u64>, key: Seq<char>) -> Option<u64> {
    if map.contains_key(key) {
        Some(map[key])
    } else {
        None
    }
}

/// The number under a key, or zero.
pub open spec fn lookup_or_zero(map: Map<Seq<char>, u64>, key: Seq<char>) -> u64 {
    if map.contains_key(key) {
        map[key]
    } else {
        0
    }
}

impl Table {
    /// A table without entries.
    pub fn new() -> (r: Table)
        ensures
            r@ == Map::<Seq<char>, u64>::empty(),
    {
        Table { entries: Vec::new() }
    }

    /// Puts a number under a key, in place of what stood there.
    pub fn insert(&mut self, key: String, value: u64)
        ensures
            final(self)@ == old(self)@.insert(key@, value),
    {
        self.entries.push(Entry { key, value });
        assert(self.entries@.drop_last() =~= old(self).entries@);
    }

    /// The number under a key.
    pub fn get(&self, key: &str) -> (r: Option<u64>)
        ensures
            r == lookup(self@, key@),
    {
        let mut i: usize = self.entries.len();
        assert(self.entries@.take(i as int) =~= self.entries@);
        while i > 0
            invariant
                i <= self.entries@.len(),
                lookup(self@, key@) == lookup(entries_map(self.entries@.take(i as int)), key@),
            decreases i,
        {
            let ghost now = self.entries@.take(i as int);
            assert(now.drop_last() =~= self.entries@.take(i - 1));
            let entry: &Entry = &self.entries[i - 1];
            assert(now.last() == *entry);
            if equals(characters(entry.key.as_str()).as_slice(), key) {
                return Some(entry.value);
            }
            i -= 1;
        }
        None
    }

    /// The number under a key, or zero.
    pub fn get_or_zero(&self, key: &str) -> (r: u64)
        ensures
            r == lookup_or_zero(self@, key@),
    {
        match self.get(key) {
            Some(value) => value,
            None => 0,
        }
    }
}

} // verus!
