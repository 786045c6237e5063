//! Equality and order of the library's types, for `==` and `<`.
//!
//! Two queue entries are equal when their priorities are: the payload does
//! not count. Their order is the order of delivery: items by ascending
//! priority, `Drained` after every item; `Taken` is comparable with itself
//! alone. Two paths are equal when they spell the same names from the root
//! down, whatever nodes they are made of, and they are ordered by those
//! names like words in a dictionary. Keys are ordered by blocks, then by
//! inode.
use crate::inventory_gatherer::{key_lex, InventoryKey};
use crate::objectpath::ObjectPath;
use crate::order::{bytes_order, lemma_bytes_order_total, lemma_lex_equal, names_lex, Order};
use crate::priority_queue::QueueEntry;
use std::cmp::Ordering;
use vstd::prelude::*;

verus! {


impl<K> PartialEq for QueueEntry<K> {
    fn eq(&self, other: &Self) -> (r: bool) {
        match (self, other) {
            (QueueEntry::Item(_, a), QueueEntry::Item(_, b)) => *a == *b,
            (QueueEntry::Drained, QueueEntry::Drained) => true,
            (QueueEntry::Taken, QueueEntry::Taken) => true,
            (_, _) => false,
        }
    }
}

impl<K> vstd::std_specs::cmp::PartialEqSpecImpl for QueueEntry<K> {
    open spec fn obeys_eq_spec() -> bool {
        true
    }

    open spec fn eq_spec(&self, other: &Self) -> bool {
        match (*self, *other) {
            (QueueEntry::Item(_, a), QueueEntry::Item(_, b)) => a == b,
            (QueueEntry::Drained, QueueEntry::Drained) => true,
            (QueueEntry::Taken, QueueEntry::Taken) => true,
            (_, _) => false,
        }
    }
}

impl<K> Eq for QueueEntry<K> {

}

impl<K> PartialOrd for QueueEntry<K> {
    fn partial_cmp(&self, other: &Self) -> (r: Option<Ordering>) {
        match (self, other) {
            (QueueEntry::Item(_, a), QueueEntry::Item(_, b)) => {
                if *a < *b {
                    Some(Ordering::Less)
                } else if *a == *b {
                    Some(Ordering::Equal)
                } else {
                    Some(Ordering::Greater)
                }
            },
            (QueueEntry::Item(_, _), QueueEntry::Drained) => Some(Ordering::Less),
            (QueueEntry::Drained, QueueEntry::Item(_, _)) => Some(Ordering::Greater),
            (QueueEntry::Drained, QueueEntry::Drained) => Some(Ordering::Equal),
            (QueueEntry::Taken, QueueEntry::Taken) => Some(Ordering::Equal),
            (_, _) => None,
        }
    }
}

impl<K> vstd::std_specs::cmp::PartialOrdSpecImpl for QueueEntry<K> {
    open spec fn obeys_partial_cmp_spec() -> bool {
        true
    }

    open spec fn partial_cmp_spec(&self, other: &Self) -> Option<Ordering> {
        match (*self, *other) {
            (QueueEntry::Item(_, a), QueueEntry::Item(_, b)) => {
                if a < b {
                    Some(Ordering::Less)
                } else if a == b {
                    Some(Ordering::Equal)
                } else {
                    Some(Ordering::Greater)
                }
            },
            (QueueEntry::Item(_, _), QueueEntry::Drained) => Some(Ordering::Less),
            (QueueEntry::Drained, QueueEntry::Item(_, _)) => Some(Ordering::Greater),
            (QueueEntry::Drained, QueueEntry::Drained) => Some(Ordering::Equal),
            (QueueEntry::Taken, QueueEntry::Taken) => Some(Ordering::Equal),
            (_, _) => None,
        }
    }
}


impl PartialEq for ObjectPath {
    fn eq(&self, other: &Self) -> (r: bool) {
        proof {
            lemma_bytes_order_total();
            lemma_lex_equal(self.names(), other.names(), bytes_order());
        }
        match self.compare(other) {
            Order::Equal => true,
            _ => false,
        }
    }
}

impl vstd::std_specs::cmp::PartialEqSpecImpl for ObjectPath {
    open spec fn obeys_eq_spec() -> bool {
        true
    }

    open spec fn eq_spec(&self, other: &Self) -> bool {
        self.names() == other.names()
    }
}

impl Eq for ObjectPath {

}

impl PartialOrd for ObjectPath {
    fn partial_cmp(&self, other: &Self) -> (r: Option<Ordering>) {
        match self.compare(other) {
            Order::Less => Some(Ordering::Less),
            Order::Equal => Some(Ordering::Equal),
            Order::Greater => Some(Ordering::Greater),
        }
    }
}

impl vstd::std_specs::cmp::PartialOrdSpecImpl for ObjectPath {
    open spec fn obeys_partial_cmp_spec() -> bool {
        true
    }

    open spec fn partial_cmp_spec(&self, other: &Self) -> Option<Ordering> {
        match names_lex(self.names(), other.names()) {
            Order::Less => Some(Ordering::Less),
            Order::Equal => Some(Ordering::Equal),
            Order::Greater => Some(Ordering::Greater),
        }
    }
}

impl PartialOrd for InventoryKey {
    fn partial_cmp(&self, other: &Self) -> (r: Option<Ordering>) {
        match self.compare(other) {
            Order::Less => Some(Ordering::Less),
            Order::Equal => Some(Ordering::Equal),
            Order::Greater => Some(Ordering::Greater),
        }
    }
}

impl vstd::std_specs::cmp::PartialOrdSpecImpl for InventoryKey {
    open spec fn obeys_partial_cmp_spec() -> bool {
        true
    }

    open spec fn partial_cmp_spec(&self, other: &Self) -> Option<Ordering> {
        match key_lex(*self, *other) {
            Order::Less => Some(Ordering::Less),
            Order::Equal => Some(Ordering::Equal),
            Order::Greater => Some(Ordering::Greater),
        }
    }
}

} // verus!
