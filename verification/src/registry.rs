//! Numbered entries: every entry gets a number that no entry had before.

use crate::table::Table;
use vstd::prelude::*;

verus! {

/// Entries by number. Numbers are given out from one on and never twice.
#[derive(Debug)]
pub struct Registry<V> {
    entries: Table<u32, V>,
    issued: u32,
}

impl<V> Registry<V> {
    #[verifier::type_invariant]
    closed spec fn well_formed(self) -> bool {
        forall|id: u32| #[trigger] self.entries@.contains_key(id) ==> 1 <= id <= self.issued
    }

    /// The last number that was given out.
    pub closed spec fn issued(self) -> u32 {
        self.issued
    }

    /// The numbers of the entries, in the order in which they were given out.
    pub closed spec fn ids(self) -> Seq<u32> {
        self.entries.keys()
    }
}

impl<V> View for Registry<V> {
    type V = Map<u32, V>;

    closed spec fn view(&self) -> Map<u32, V> {
        self.entries@
    }
}

impl<V> Registry<V> {
    /// Whether no number was given out yet.
    pub open spec fn holds_nothing(self) -> bool {
        self@ == Map::<u32, V>::empty() && self.ids() == Seq::<u32>::empty() && self.issued() == 0
    }

    /// No entries.
    pub fn new() -> (r: Self)
        ensures
            r@ == Map::<u32, V>::empty(),
            r.issued() == 0,
            r.ids() == Seq::<u32>::empty(),
    {
        Registry { entries: Table::new(), issued: 0 }
    }

    /// Adds an entry and gives back its number; `None` once all numbers are used up.
    pub fn issue(&mut self, v: V) -> (r: Option<u32>)
        ensures
            r == (if old(self).issued() == u32::MAX {
                None
            } else {
                Some((old(self).issued() + 1) as u32)
            }),
            r matches Some(id) ==> {
                &&& !old(self)@.contains_key(id)
                &&& final(self)@ == old(self)@.insert(id, v)
                &&& final(self).issued() == id
                &&& final(self).ids() == old(self).ids().push(id)
            },
            r is None ==> *final(self) == *old(self),
    {
        proof {
            use_type_invariant(&*self);
        }
        if self.issued == u32::MAX {
            return None;
        }
        let id: u32 = self.issued + 1;
        let mut entries: Table<u32, V> = Table::new();
        std::mem::swap(&mut entries, &mut self.entries);
        entries.insert(id, v);
        self.issued = id;
        self.entries = entries;
        Some(id)
    }

    /// The entry with the number `id`.
    pub fn get(&self, id: u32) -> (r: Option<&V>)
        ensures
            r == (if self@.contains_key(id) {
                Some(&self@[id])
            } else {
                None
            }),
    {
        self.entries.get(&id)
    }

    /// The number of the oldest entry.
    pub fn first(&self) -> (r: Option<u32>)
        ensures
            r == (if self.ids().len() == 0 {
                None
            } else {
                Some(self.ids()[0])
            }),
            r matches Some(id) ==> self@.contains_key(id) && id > 0,
    {
        proof {
            use_type_invariant(self);
        }
        if self.entries.len() == 0 {
            None
        } else {
            Some(self.entries.key_at(0))
        }
    }

    /// Replaces the entry with the number `id`.
    pub fn replace(&mut self, id: u32, v: V)
        requires
            old(self)@.contains_key(id),
        ensures
            final(self)@ == old(self)@.insert(id, v),
            final(self).issued() == old(self).issued(),
            final(self).ids() == old(self).ids(),
    {
        proof {
            use_type_invariant(&*self);
        }
        let mut entries: Table<u32, V> = Table::new();
        std::mem::swap(&mut entries, &mut self.entries);
        entries.insert(id, v);
        self.entries = entries;
    }

    /// Replaces the entry with the number `id` and hands the one before out.
    pub fn exchange(&mut self, id: u32, v: V) -> (r: V)
        requires
            old(self)@.contains_key(id),
        ensures
            r == old(self)@[id],
            final(self)@ == old(self)@.insert(id, v),
            final(self).issued() == old(self).issued(),
            final(self).ids() == old(self).ids(),
    {
        proof {
            use_type_invariant(&*self);
        }
        let mut entries: Table<u32, V> = Table::new();
        std::mem::swap(&mut entries, &mut self.entries);
        let r = entries.exchange(id, v);
        self.entries = entries;
        r
    }

    /// Removes the entry with the number `id` and hands it out.
    pub fn remove(&mut self, id: u32) -> (r: Option<V>)
        ensures
            final(self)@ == old(self)@.remove(id),
            final(self).issued() == old(self).issued(),
            final(self).ids() == old(self).ids().remove_value(id),
            r == (if old(self)@.contains_key(id) {
                Some(old(self)@[id])
            } else {
                None
            }),
    {
        proof {
            use_type_invariant(&*self);
        }
        let mut entries: Table<u32, V> = Table::new();
        std::mem::swap(&mut entries, &mut self.entries);
        let r = entries.remove(&id);
        self.entries = entries;
        r
    }
}

} // verus!
