//! The names under which one object on disk is known.
use crate::objectpath::ObjectPath;
use crate::order::{lemma_names_order_total, names_order, total_order, Order};
use crate::sorted::{
    ascending, belongs_at, lemma_belongs_means_absent, lemma_ascending_is_unique,
    lemma_insert_keeps_ascending, lemma_insert_to_set, lemma_remove_keeps_ascending,
    lemma_remove_to_set,
};
use std::sync::Arc;
use vstd::prelude::*;

verus! {

/// Stores a sorted list of unique file paths.
#[derive(Debug)]
pub struct ObjectList(Vec<Arc<ObjectPath>>);

impl View for ObjectList {
    type V = Seq<Seq<Seq<u8>>>;

    /// The stored paths in order, each as its names from the root down.
    closed spec fn view(&self) -> Seq<Seq<Seq<u8>>> {
        Seq::new(self.0@.len(), |i: int| self.0@[i].names())
    }
}

impl ObjectList {
    /// The invariant of the list: the paths stand in ascending order, so
    /// none stands twice.
    pub open spec fn wf(&self) -> bool {
        ascending(self@, names_order())
    }

    /// Creates a new ObjectList.
    pub fn new() -> (list: ObjectList)
        ensures
            list.wf(),
            list@ == Seq::<Seq<Seq<u8>>>::empty(),
    {
        let list = ObjectList(Vec::new());
        assert(list@ =~= Seq::<Seq<Seq<u8>>>::empty());
        list
    }

    /// Finds `object` in the list: its place if it is there, else the place
    /// where it belongs.
    fn search(&self, object: &ObjectPath) -> (r: (bool, usize))
        requires
            self.wf(),
        ensures
            r.0 ==> r.1 < self@.len() && self@[r.1 as int] == object.names(),
            !r.0 ==> belongs_at(self@, object.names(), r.1 as int, names_order()),
    {
        let ghost paths = self@;
        let ghost wanted = object.names();
        let mut lo: usize = 0;
        let mut hi: usize = self.0.len();
        proof {
            lemma_names_order_total();
        }
        while lo < hi
            invariant
                0 <= lo <= hi <= paths.len(),
                paths == self@,
                wanted == object.names(),
                paths.len() == self.0@.len(),
                ascending(paths, names_order()),
                total_order(names_order()),
                forall|i: int|
                    0 <= i < lo ==> (#[trigger] names_order()(paths[i], wanted)) == Order::Less,
                forall|i: int|
                    hi <= i < paths.len() ==> (#[trigger] names_order()(wanted, paths[i]))
                        == Order::Less,
            decreases hi - lo,
        {
            let mid = lo + (hi - lo) / 2;
            let c = self.0[mid].compare(object);
            assert(c == names_order()(paths[mid as int], wanted));
            match c {
                Order::Equal => {
                    return (true, mid);
                },
                Order::Less => {
                    proof {
                        assert forall|i: int| 0 <= i < mid + 1 implies (#[trigger] names_order()(
                            paths[i],
                            wanted,
                        )) == Order::Less by {
                            if i < mid {
                                assert(names_order()(paths[i], paths[mid as int]) == Order::Less);
                            }
                        }
                    }
                    lo = mid + 1;
                },
                Order::Greater => {
                    proof {
                        assert(names_order()(wanted, paths[mid as int]) == Order::Less);
                        assert forall|i: int| mid <= i < paths.len() implies (
                        #[trigger] names_order()(wanted, paths[i])) == Order::Less by {
                            if i > mid {
                                assert(names_order()(paths[mid as int], paths[i]) == Order::Less);
                            }
                        }
                    }
                    hi = mid;
                },
            }
        }
        (false, lo)
    }

    /// Insert an object, only when not already present.
    pub fn insert(&mut self, object: Arc<ObjectPath>)
        requires
            old(self).wf(),
        ensures
            final(self).wf(),
            final(self)@.to_set() == old(self)@.to_set().insert(object.names()),
            old(self)@.contains(object.names()) ==> final(self)@ == old(self)@,
            !old(self)@.contains(object.names()) ==> final(self)@.len() == old(self)@.len() + 1,
    {
        let (found, pos) = self.search(&object);
        if !found {
            self.0.insert(pos, object);
            proof {
                lemma_names_order_total();
                lemma_belongs_means_absent(old(self)@, object.names(), pos as int, names_order());
                assert(self@ =~= old(self)@.insert(pos as int, object.names()));
                lemma_insert_to_set(old(self)@, pos as int, object.names());
                lemma_insert_keeps_ascending(
                    old(self)@,
                    object.names(),
                    pos as int,
                    names_order(),
                );
            }
        } else {
            assert(self@.to_set() =~= old(self)@.to_set().insert(object.names()));
        }
    }

    /// Removes an object if present.
    pub fn remove(&mut self, object: Arc<ObjectPath>)
        requires
            old(self).wf(),
        ensures
            final(self).wf(),
            final(self)@.to_set() == old(self)@.to_set().remove(object.names()),
            !old(self)@.contains(object.names()) ==> final(self)@ == old(self)@,
            old(self)@.contains(object.names()) ==> final(self)@.len() == old(self)@.len() - 1,
    {
        let (found, pos) = self.search(&object);
        proof {
            lemma_names_order_total();
        }
        if found {
            let _ = self.0.remove(pos);
            proof {
                lemma_ascending_is_unique(old(self)@, names_order());
                assert(self@ =~= old(self)@.remove(pos as int));
                lemma_remove_to_set(old(self)@, pos as int);
                lemma_remove_keeps_ascending(old(self)@, pos as int, names_order());
            }
        } else {
            proof {
                lemma_belongs_means_absent(self@, object.names(), pos as int, names_order());
                assert(self@.to_set() =~= old(self)@.to_set().remove(object.names()));
            }
        }
    }

    /// Whether the object is stored.
    pub fn contains(&self, object: Arc<ObjectPath>) -> (r: bool)
        requires
            self.wf(),
        ensures
            r == self@.contains(object.names()),
    {
        let (found, pos) = self.search(&object);
        proof {
            if !found {
                lemma_names_order_total();
                lemma_belongs_means_absent(self@, object.names(), pos as int, names_order());
            }
        }
        found
    }

    /// The stored object at place `index`, counted in sorted order.
    pub fn get(&self, index: usize) -> (r: Option<&Arc<ObjectPath>>)
        ensures
            index < self@.len() ==> (r matches Some(object) && object.names() == self@[index as int]),
            index >= self@.len() ==> r is None,
    {
        if index < self.0.len() {
            Some(&self.0[index])
        } else {
            None
        }
    }

    /// Returns `true` when no object is stored.
    pub fn is_empty(&self) -> (r: bool)
        ensures
            r == (self@.len() == 0),
    {
        self.0.len() == 0
    }

    /// Returns the number of stored objects.
    pub fn len(&self) -> (n: usize)
        ensures
            n == self@.len(),
    {
        self.0.len()
    }
}

} // verus!
