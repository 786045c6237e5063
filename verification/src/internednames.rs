//! A pool of file names in which every name is stored once.
//!
//! A directory tree repeats the same few names over and over. The pool hands
//! out shared handles: interning a name that the pool has seen gives another
//! handle to the storage made at the first sighting. Names are never evicted.
use crate::order::{bytes_order, compare_bytes, lemma_bytes_order_total, total_order, Order};
use crate::sorted::{
    ascending, belongs_at, lemma_ascending_is_unique, lemma_belongs_means_absent,
    lemma_insert_keeps_ascending, lemma_insert_to_set,
};
use std::sync::Arc;
use vstd::prelude::*;

verus! {

/// A shared, immutable file name. Any bytes will do.
#[derive(Debug, Hash)]
pub struct InternedName(Arc<Vec<u8>>);

impl View for InternedName {
    type V = Seq<u8>;

    closed spec fn view(&self) -> Seq<u8> {
        self.0@
    }
}

impl Clone for InternedName {
    /// Another handle to the same storage.
    fn clone(&self) -> (r: Self)
        ensures
            r == *self,
    {
        InternedName(self.0.clone())
    }
}

impl InternedName {
    /// Creates a name with storage of its own. It is not yet part of any
    /// pool: use [`InternedNames::interning`] for that.
    pub fn new(s: &[u8]) -> (name: InternedName)
        ensures
            name@ == s@,
    {
        let mut bytes: Vec<u8> = Vec::with_capacity(s.len());
        bytes.extend_from_slice(s);
        assert(bytes@ =~= s@);
        InternedName(Arc::new(bytes))
    }

    /// The length of the name in bytes.
    pub fn len(&self) -> (n: usize)
        ensures
            n == self@.len(),
    {
        self.0.len()
    }

    /// The bytes of the name.
    pub fn as_bytes(&self) -> (bytes: &[u8])
        ensures
            bytes@ == self@,
    {
        self.0.as_slice()
    }
}

/// Storage for all interned names.
#[derive(Debug)]
pub struct InternedNames {
    cached_names: Vec<InternedName>,
}

impl View for InternedNames {
    type V = Set<Seq<u8>>;

    /// The names that the pool has seen.
    closed spec fn view(&self) -> Set<Seq<u8>> {
        self.names().to_set()
    }
}

impl InternedNames {
    /// The stored names in storage order. The place of a name in this
    /// sequence stands for its storage: two handles are the same handle when
    /// they were cloned from the same place.
    pub closed spec fn names(&self) -> Seq<Seq<u8>> {
        Seq::new(self.cached_names@.len(), |i: int| self.cached_names@[i]@)
    }

    /// The invariant of the pool: the storage is kept in ascending order.
    pub open spec fn wf(&self) -> bool {
        ascending(self.names(), bytes_order())
    }

    /// The handle was cloned from the pool's storage.
    pub closed spec fn holds(&self, handle: InternedName) -> bool {
        exists|i: int| 0 <= i < self.cached_names@.len() && self.cached_names@[i] == handle
    }

    /// Creates an empty pool.
    pub fn new() -> (pool: InternedNames)
        ensures
            pool.wf(),
            pool.names() == Seq::<Seq<u8>>::empty(),
            pool@ == Set::<Seq<u8>>::empty(),
    {
        let pool = InternedNames { cached_names: Vec::new() };
        assert(pool.names() =~= Seq::<Seq<u8>>::empty());
        assert(pool@ =~= Set::<Seq<u8>>::empty());
        pool
    }

    /// The number of handles, which is the number of different names seen.
    pub fn len(&self) -> (n: usize)
        requires
            self.wf(),
        ensures
            n == self.names().len(),
            n == self@.len(),
            self@.finite(),
    {
        proof {
            lemma_bytes_order_total();
            lemma_ascending_is_unique(self.names(), bytes_order());
            self.names().unique_seq_to_set();
        }
        self.cached_names.len()
    }

    /// Finds `name` in the storage: its place if it is there, else the place
    /// where it belongs.
    fn search(&self, name: &[u8]) -> (r: (bool, usize))
        requires
            self.wf(),
        ensures
            r.0 ==> r.1 < self.names().len() && self.names()[r.1 as int] == name@,
            !r.0 ==> belongs_at(self.names(), name@, r.1 as int, bytes_order()),
    {
        let ghost names = self.names();
        let mut lo: usize = 0;
        let mut hi: usize = self.cached_names.len();
        proof {
            lemma_bytes_order_total();
        }
        while lo < hi
            invariant
                0 <= lo <= hi <= names.len(),
                names == self.names(),
                names.len() == self.cached_names@.len(),
                ascending(names, bytes_order()),
                total_order(bytes_order()),
                forall|i: int|
                    0 <= i < lo ==> (#[trigger] bytes_order()(names[i], name@)) == Order::Less,
                forall|i: int|
                    hi <= i < names.len() ==> (#[trigger] bytes_order()(name@, names[i]))
                        == Order::Less,
            decreases hi - lo,
        {
            let mid = lo + (hi - lo) / 2;
            let c = compare_bytes(self.cached_names[mid].as_bytes(), name);
            assert(c == bytes_order()(names[mid as int], name@));
            match c {
                Order::Equal => {
                    return (true, mid);
                },
                Order::Less => {
                    proof {
                        assert forall|i: int| 0 <= i < mid + 1 implies (#[trigger] bytes_order()(
                            names[i],
                            name@,
                        )) == Order::Less by {
                            if i < mid {
                                assert(bytes_order()(names[i], names[mid as int]) == Order::Less);
                            }
                        }
                    }
                    lo = mid + 1;
                },
                Order::Greater => {
                    proof {
                        assert(bytes_order()(name@, names[mid as int]) == Order::Less);
                        assert forall|i: int| mid <= i < names.len() implies (
                        #[trigger] bytes_order()(name@, names[i])) == Order::Less by {
                            if i > mid {
                                assert(bytes_order()(names[mid as int], names[i]) == Order::Less);
                            }
                        }
                    }
                    hi = mid;
                },
            }
        }
        (false, lo)
    }

    /// Whether the pool has seen `name`.
    pub fn contains(&self, name: &[u8]) -> (r: bool)
        requires
            self.wf(),
        ensures
            r == self@.contains(name@),
    {
        let (found, pos) = self.search(name);
        proof {
            if !found {
                lemma_bytes_order_total();
                lemma_belongs_means_absent(self.names(), name@, pos as int, bytes_order());
            }
        }
        found
    }

    /// Interns `name`: returns a handle to the existing storage, or makes
    /// the storage at the first sighting.
    pub fn interning(&mut self, name: &[u8]) -> (handle: InternedName)
        requires
            old(self).wf(),
        ensures
            final(self).wf(),
            handle@ == name@,
            final(self).holds(handle),
            forall|earlier: InternedName| old(self).holds(earlier) ==> final(self).holds(earlier),
            final(self)@ == old(self)@.insert(name@),
            old(self)@.contains(name@) ==> final(self).names() == old(self).names(),
            !old(self)@.contains(name@) ==> final(self).names().len() == old(self).names().len()
                + 1,
    {
        let (found, pos) = self.search(name);
        if found {
            let handle = self.cached_names[pos].clone();
            assert(self@ =~= old(self)@.insert(name@));
            assert(self.cached_names@[pos as int] == handle);
            handle
        } else {
            let fresh = InternedName::new(name);
            let handle = fresh.clone();
            self.cached_names.insert(pos, fresh);
            proof {
                let before = old(self).names();
                lemma_bytes_order_total();
                lemma_belongs_means_absent(before, name@, pos as int, bytes_order());
                assert(self.names() =~= before.insert(pos as int, name@));
                lemma_insert_to_set(before, pos as int, name@);
                lemma_insert_keeps_ascending(before, name@, pos as int, bytes_order());
                assert(self.cached_names@[pos as int] == handle);
                assert forall|earlier: InternedName| old(self).holds(earlier) implies self.holds(
                    earlier,
                ) by {
                    let i = choose|i: int|
                        0 <= i < old(self).cached_names@.len() && old(self).cached_names@[i]
                            == earlier;
                    if i < pos {
                        assert(self.cached_names@[i] == earlier);
                    } else {
                        assert(self.cached_names@[i + 1] == earlier);
                    }
                }
            }
            handle
        }
    }
}

/// Interning identity. Two handles that a pool holds are the same handle
/// exactly when their names are equal.
pub proof fn theorem_interning_identity(pool: InternedNames, a: InternedName, b: InternedName)
    requires
        pool.wf(),
        pool.holds(a),
        pool.holds(b),
    ensures
        a == b <==> a@ == b@,
{
    if a@ == b@ {
        let i = choose|i: int| 0 <= i < pool.cached_names@.len() && pool.cached_names@[i] == a;
        let j = choose|j: int| 0 <= j < pool.cached_names@.len() && pool.cached_names@[j] == b;
        assert(pool.names()[i] == a@);
        assert(pool.names()[j] == b@);
        lemma_bytes_order_total();
        lemma_ascending_is_unique(pool.names(), bytes_order());
    }
}

/// One handle per name. In a pool no two places of the storage hold the
/// same name, so handles to equal names are handles to the same storage,
/// and the number of handles is the number of different names.
pub proof fn theorem_one_handle_per_name(pool: InternedNames, i: int, j: int)
    requires
        pool.wf(),
        0 <= i < pool.names().len(),
        0 <= j < pool.names().len(),
    ensures
        pool.names()[i] == pool.names()[j] <==> i == j,
        pool@.len() == pool.names().len(),
{
    lemma_bytes_order_total();
    lemma_ascending_is_unique(pool.names(), bytes_order());
    pool.names().unique_seq_to_set();
}

} // verus!
