//! Sequences kept in ascending order without repeats.
use crate::order::{total_order, Order};
use vstd::prelude::*;

verus! {

/// Each element comes before every later one.
pub open spec fn ascending<T>(s: Seq<T>, ord: spec_fn(T, T) -> Order) -> bool {
    forall|i: int, j: int| 0 <= i < j < s.len() ==> (#[trigger] ord(s[i], s[j])) == Order::Less
}

/// `x` belongs at place `pos`: what stands before is less, what stands
/// from there on is greater.
pub open spec fn belongs_at<T>(s: Seq<T>, x: T, pos: int, ord: spec_fn(T, T) -> Order) -> bool {
    &&& 0 <= pos <= s.len()
    &&& forall|i: int| 0 <= i < pos ==> (#[trigger] ord(s[i], x)) == Order::Less
    &&& forall|i: int| pos <= i < s.len() ==> (#[trigger] ord(x, s[i])) == Order::Less
}

/// In an ascending sequence nothing occurs twice.
pub proof fn lemma_ascending_is_unique<T>(s: Seq<T>, ord: spec_fn(T, T) -> Order)
    requires
        total_order(ord),
        ascending(s, ord),
    ensures
        s.no_duplicates(),
{
    assert forall|i: int, j: int| 0 <= i < s.len() && 0 <= j < s.len() && i != j implies s[i]
        != s[j] by {
        if i < j {
            assert(ord(s[i], s[j]) == Order::Less);
        } else {
            assert(ord(s[j], s[i]) == Order::Less);
        }
    }
}

/// An element that belongs somewhere is not in the sequence yet.
pub proof fn lemma_belongs_means_absent<T>(s: Seq<T>, x: T, pos: int, ord: spec_fn(T, T) -> Order)
    requires
        total_order(ord),
        belongs_at(s, x, pos, ord),
    ensures
        !s.contains(x),
{
    if s.contains(x) {
        let k = choose|k: int| 0 <= k < s.len() && s[k] == x;
        if k < pos {
            assert(ord(s[k], x) == Order::Less);
        } else {
            assert(ord(x, s[k]) == Order::Less);
        }
    }
}

/// Putting an element where it belongs keeps the order.
pub proof fn lemma_insert_keeps_ascending<T>(s: Seq<T>, x: T, pos: int, ord: spec_fn(T, T) -> Order)
    requires
        ascending(s, ord),
        belongs_at(s, x, pos, ord),
    ensures
        ascending(s.insert(pos, x), ord),
{
    let after = s.insert(pos, x);
    assert forall|i: int, j: int| 0 <= i < j < after.len() implies (#[trigger] ord(
        after[i],
        after[j],
    )) == Order::Less by {
        if i < pos && j > pos {
            assert(ord(s[i], s[j - 1]) == Order::Less);
        } else if i < pos && j < pos {
            assert(ord(s[i], s[j]) == Order::Less);
        } else if i < pos {
            assert(ord(s[i], x) == Order::Less);
        } else if i == pos {
            assert(ord(x, s[j - 1]) == Order::Less);
        } else {
            assert(ord(s[i - 1], s[j - 1]) == Order::Less);
        }
    }
}

/// Taking an element out keeps the order.
pub proof fn lemma_remove_keeps_ascending<T>(s: Seq<T>, pos: int, ord: spec_fn(T, T) -> Order)
    requires
        ascending(s, ord),
        0 <= pos < s.len(),
    ensures
        ascending(s.remove(pos), ord),
{
    let after = s.remove(pos);
    assert forall|i: int, j: int| 0 <= i < j < after.len() implies (#[trigger] ord(
        after[i],
        after[j],
    )) == Order::Less by {
        let a = if i < pos {
            i
        } else {
            i + 1
        };
        let b = if j < pos {
            j
        } else {
            j + 1
        };
        assert(ord(s[a], s[b]) == Order::Less);
    }
}

/// Inserting an element at any place adds it to the set of elements.
pub proof fn lemma_insert_to_set<T>(s: Seq<T>, pos: int, x: T)
    requires
        0 <= pos <= s.len(),
    ensures
        s.insert(pos, x).to_set() == s.to_set().insert(x),
{
    let after = s.insert(pos, x);
    assert forall|y: T| after.to_set().contains(y) <==> s.to_set().insert(x).contains(y) by {
        if after.contains(y) {
            let k = choose|k: int| 0 <= k < after.len() && after[k] == y;
            if k < pos {
                assert(s[k] == y);
            } else if k > pos {
                assert(s[k - 1] == y);
            }
        }
        if s.contains(y) {
            let k = choose|k: int| 0 <= k < s.len() && s[k] == y;
            if k < pos {
                assert(after[k] == y);
            } else {
                assert(after[k + 1] == y);
            }
        }
        if y == x {
            assert(after[pos] == y);
        }
    }
    assert(after.to_set() =~= s.to_set().insert(x));
}

/// Removing the one occurrence of an element takes it out of the set of
/// elements.
pub proof fn lemma_remove_to_set<T>(s: Seq<T>, pos: int)
    requires
        0 <= pos < s.len(),
        s.no_duplicates(),
    ensures
        s.remove(pos).to_set() == s.to_set().remove(s[pos]),
{
    let after = s.remove(pos);
    assert forall|y: T| after.to_set().contains(y) <==> s.to_set().remove(s[pos]).contains(y) by {
        if after.contains(y) {
            let k = choose|k: int| 0 <= k < after.len() && after[k] == y;
            if k < pos {
                assert(s[k] == y);
            } else {
                assert(s[k + 1] == y);
            }
        }
        if s.contains(y) && y != s[pos] {
            let k = choose|k: int| 0 <= k < s.len() && s[k] == y;
            if k < pos {
                assert(after[k] == y);
            } else {
                assert(after[k - 1] == y);
            }
        }
    }
    assert(after.to_set() =~= s.to_set().remove(s[pos]));
}

} // verus!
