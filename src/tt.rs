use vstd::prelude::*;
use crate::types::Mv;
use std::collections::HashMap;

verus! {

broadcast use vstd::std_specs::hash::group_hash_axioms;

/// How a stored score relates to the true value of its position.
#[allow(non_camel_case_types)]
#[derive(Debug, Clone, Copy, PartialEq, Eq, Structural)]
pub enum flag_type {
    Exact,
    Lower,
    Upper,
}

/// A search result kept for a fingerprint.
#[derive(Debug, Clone, Copy)]
pub struct Entry {
    pub score: i32,
    pub depth: i32,
    pub flag: flag_type,
    pub best_move: Option<Mv>,
}

/// Number of entries a table holds unless told otherwise.
pub const DEFAULT_CAPACITY: usize = 1048576;

/// Whether `new` may take the place of `old`: a deeper result wins; at equal
/// depth an exact one wins over a bound, and otherwise the newer one wins.
pub open spec fn replaces(old: Entry, new: Entry) -> bool {
    new.depth > old.depth || (new.depth == old.depth && (new.flag == flag_type::Exact
        || old.flag != flag_type::Exact))
}

/// The contents after storing `e` under `k`: a key already present is
/// replaced when the policy allows; a new key is added only while the table
/// is below its capacity; anything else is dropped.
pub open spec fn stored(m: Map<u64, Entry>, cap: nat, k: u64, e: Entry) -> Map<u64, Entry> {
    if m.contains_key(k) {
        if replaces(m[k], e) {
            m.insert(k, e)
        } else {
            m
        }
    } else if m.len() < cap {
        m.insert(k, e)
    } else {
        m
    }
}

/// A bounded map from fingerprints to search results.
#[allow(non_camel_case_types)]
pub struct transposition_table {
    table: HashMap<u64, Entry>,
    capacity: usize,
}

impl View for transposition_table {
    type V = Map<u64, Entry>;

    closed spec fn view(&self) -> Map<u64, Entry> {
        self.table@
    }
}

impl transposition_table {
    pub closed spec fn cap(&self) -> nat {
        self.capacity as nat
    }

    /// The number of entries never exceeds the capacity.
    pub open spec fn wf(&self) -> bool {
        self@.len() <= self.cap() && self@.dom().finite()
    }

    /// An empty table with the default capacity.
    pub fn new() -> (r: Self)
        ensures
            r.wf(),
            r@ == Map::<u64, Entry>::empty(),
            r.cap() == DEFAULT_CAPACITY,
    {
        transposition_table { table: HashMap::new(), capacity: DEFAULT_CAPACITY }
    }

    /// An empty table that holds at most `capacity` entries.
    pub fn with_capacity(capacity: usize) -> (r: Self)
        ensures
            r.wf(),
            r@ == Map::<u64, Entry>::empty(),
            r.cap() == capacity,
    {
        transposition_table { table: HashMap::new(), capacity }
    }

    /// The number of entries.
    pub fn len(&self) -> (r: usize)
        requires
            self.wf(),
        ensures
            r == self@.len(),
    {
        self.table.len()
    }

    /// Stores `entry` under `hash` by the replacement policy.
    pub fn store(&mut self, hash: u64, entry: Entry)
        requires
            old(self).wf(),
        ensures
            final(self).wf(),
            final(self).cap() == old(self).cap(),
            final(self)@ == stored(old(self)@, old(self).cap(), hash, entry),
    {
        match self.table.get(&hash) {
            Some(e) => {
                let old_entry = *e;
                if entry.depth > old_entry.depth || (entry.depth == old_entry.depth && (
                entry.flag == flag_type::Exact || old_entry.flag != flag_type::Exact)) {
                    self.table.insert(hash, entry);
                }
            },
            None => {
                if self.table.len() < self.capacity {
                    self.table.insert(hash, entry);
                }
            },
        }
    }

    /// The entry stored under `hash`, if any.
    pub fn get(&self, hash: u64) -> (r: Option<Entry>)
        requires
            self.wf(),
        ensures
            r == (if self@.contains_key(hash) {
                Some(self@[hash])
            } else {
                None
            }),
    {
        match self.table.get(&hash) {
            Some(e) => Some(*e),
            None => None,
        }
    }
}

/// Storing never takes a table beyond its capacity.
pub proof fn lemma_store_within_capacity(m: Map<u64, Entry>, cap: nat, k: u64, e: Entry)
    requires
        m.dom().finite(),
        m.len() <= cap,
    ensures
        stored(m, cap, k, e).len() <= cap,
        stored(m, cap, k, e).dom().finite(),
{
    if m.contains_key(k) {
        assert(m.insert(k, e).dom() =~= m.dom());
    }
}

} // verus!
