//! The inventory of the objects that are worth deleting first.
//!
//! The assembler takes what the gatherer puts out and keeps, for every
//! device, the objects in the order of their keys: blocks first, then
//! inode. All paths that lead to one object, its hard links, stand in one
//! list under the object's key. Reading the inventory from the back gives
//! the largest objects first.
use crate::inventory_gatherer::{key_lex, ErrorKind, InventoryEntriesMessage, InventoryKey};
use crate::objectlist::ObjectList;
use crate::objectpath::ObjectPath;
use crate::order::{total_order, Order};
use crate::sorted::{
    ascending, belongs_at, lemma_ascending_is_unique, lemma_belongs_means_absent,
    lemma_insert_keeps_ascending,
};
use std::sync::Arc;
use vstd::prelude::*;

verus! {

/// Slightly better name for device identifiers returned from metadata.
pub type DeviceId = u64;

/// What identifies an object: its device and its key on that device.
pub type ObjectId = (DeviceId, InventoryKey);

/// The paths of one object, as a set.
pub type Aliases = Set<Seq<Seq<u8>>>;

/// The order of objects: by device, then by key.
pub open spec fn object_order() -> spec_fn(ObjectId, ObjectId) -> Order {
    |a: ObjectId, b: ObjectId|
        if a.0 < b.0 {
            Order::Less
        } else if a.0 > b.0 {
            Order::Greater
        } else {
            key_lex(a.1, b.1)
        }
}

/// The order of objects is total.
pub proof fn lemma_object_order_total()
    ensures
        total_order(object_order()),
{
}

/// The place of an object in a sequence of objects.
pub open spec fn index_of(ids: Seq<ObjectId>, id: ObjectId) -> int {
    choose|i: int| 0 <= i < ids.len() && ids[i] == id
}

/// Where nothing occurs twice, the place of an object is the one place
/// where it stands.
pub proof fn lemma_index_of(ids: Seq<ObjectId>, i: int)
    requires
        ids.no_duplicates(),
        0 <= i < ids.len(),
    ensures
        index_of(ids, ids[i]) == i,
{
    let j = index_of(ids, ids[i]);
    assert(0 <= j < ids.len() && ids[j] == ids[i]);
}

/// The paths known for an object; none where the inventory does not hold
/// it.
pub open spec fn aliases_of(map: Map<ObjectId, Aliases>, id: ObjectId) -> Aliases {
    if map.dom().contains(id) {
        map[id]
    } else {
        Set::empty()
    }
}

/// The inventory after one more path of an object was added.
pub open spec fn added(map: Map<ObjectId, Aliases>, id: ObjectId, path: Seq<Seq<u8>>) -> Map<
    ObjectId,
    Aliases,
> {
    map.insert(id, aliases_of(map, id).insert(path))
}

/// Hard links share one list. Whatever the inventory held before, after
/// two paths were added for one object on one device, both stand in the
/// list under the object's key, and the object has that one entry.
pub proof fn theorem_hard_links_share_a_list(
    map: Map<ObjectId, Aliases>,
    id: ObjectId,
    first: Seq<Seq<u8>>,
    second: Seq<Seq<u8>>,
)
    ensures
        added(added(map, id, first), id, second)[id].contains(first),
        added(added(map, id, first), id, second)[id].contains(second),
        added(added(map, id, first), id, second).dom() == map.dom().insert(id),
        forall|other: ObjectId|
            other != id ==> aliases_of(added(added(map, id, first), id, second), other)
                == aliases_of(map, other),
{
    let once = added(map, id, first);
    let twice = added(once, id, second);
    assert(twice.dom() =~= map.dom().insert(id));
}

#[derive(Debug)]
struct InventoryRow {
    device: DeviceId,
    key: InventoryKey,
    objects: ObjectList,
}

/// Maps every qualifying object of every device to the list of its paths.
#[derive(Debug)]
pub struct Inventory {
    rows: Vec<InventoryRow>,
    errors: Vec<(Arc<ObjectPath>, ErrorKind)>,
    min_blockcount: u64,
    done: bool,
}

impl View for Inventory {
    type V = Map<ObjectId, Aliases>;

    /// The paths of every object that the inventory holds.
    closed spec fn view(&self) -> Map<ObjectId, Aliases> {
        Map::new(
            |id: ObjectId| self.ids().contains(id),
            |id: ObjectId| self.lists()[index_of(self.ids(), id)].to_set(),
        )
    }
}

impl Inventory {
    /// The objects in storage order.
    pub closed spec fn ids(&self) -> Seq<ObjectId> {
        Seq::new(self.rows@.len(), |i: int| (self.rows@[i].device, self.rows@[i].key))
    }

    /// The list of paths of each object, in storage order.
    spec fn lists(&self) -> Seq<Seq<Seq<Seq<u8>>>> {
        Seq::new(self.rows@.len(), |i: int| self.rows@[i].objects@)
    }

    /// Objects with fewer blocks are not kept.
    pub closed spec fn min_blocks(&self) -> u64 {
        self.min_blockcount
    }

    /// The paths that could not be gathered, in the order of arrival.
    pub closed spec fn error_log(&self) -> Seq<(Seq<Seq<u8>>, ErrorKind)> {
        Seq::new(self.errors@.len(), |i: int| (self.errors@[i].0.names(), self.errors@[i].1))
    }

    /// `Done` has arrived.
    pub closed spec fn done(&self) -> bool {
        self.done
    }

    /// The invariant of the inventory: the objects stand in ascending
    /// order, each with a sorted list of at least one path, and none has
    /// fewer blocks than the minimum.
    pub closed spec fn wf(&self) -> bool {
        &&& ascending(self.ids(), object_order())
        &&& forall|i: int| 0 <= i < self.rows@.len() ==> (#[trigger] self.rows@[i]).objects.wf()
        &&& forall|i: int| 0 <= i < self.rows@.len() ==> (#[trigger] self.lists()[i]).len() > 0
        &&& forall|i: int|
            0 <= i < self.rows@.len() ==> (#[trigger] self.ids()[i]).1.blocks
                >= self.min_blockcount
    }

    /// The inventory holds no object below the minimum block count, and no
    /// object without a path.
    pub proof fn lemma_block_filter(&self, id: ObjectId)
        requires
            self.wf(),
            self@.dom().contains(id),
        ensures
            id.1.blocks >= self.min_blocks(),
            self@[id].len() > 0,
            self@[id].finite(),
    {
        let i = index_of(self.ids(), id);
        assert(self.ids()[i] == id);
        assert(self.lists()[i].len() > 0);
        let list = self.lists()[i];
        assert(list.to_set().contains(list[0]));
        vstd::seq_lib::seq_to_set_is_finite(list);
        if list.to_set().len() == 0 {
            assert(list.to_set() =~= Set::empty()) by {
                vstd::set_lib::lemma_set_empty_equivalency_len(list.to_set());
            }
        }
    }

    /// The storage order is ascending and holds exactly the objects of the
    /// inventory, so the two determine each other.
    pub proof fn lemma_ids(&self)
        requires
            self.wf(),
        ensures
            ascending(self.ids(), object_order()),
            self.ids().to_set() == self@.dom(),
    {
        assert(self.ids().to_set() =~= self@.dom());
    }

    /// Creates an empty inventory that keeps objects of at least
    /// `min_blockcount` blocks.
    pub fn new(min_blockcount: u64) -> (inventory: Inventory)
        ensures
            inventory.wf(),
            inventory@ == Map::<ObjectId, Aliases>::empty(),
            inventory.ids() == Seq::<ObjectId>::empty(),
            inventory.min_blocks() == min_blockcount,
            inventory.error_log() == Seq::<(Seq<Seq<u8>>, ErrorKind)>::empty(),
            !inventory.done(),
    {
        let inventory = Inventory {
            rows: Vec::new(),
            errors: Vec::new(),
            min_blockcount,
            done: false,
        };
        assert(inventory.ids() =~= Seq::<ObjectId>::empty());
        assert(inventory@ =~= Map::<ObjectId, Aliases>::empty());
        assert(inventory.error_log() =~= Seq::<(Seq<Seq<u8>>, ErrorKind)>::empty());
        inventory
    }

    /// Finds an object in the storage: its place if it is there, else the
    /// place where it belongs.
    fn search(&self, device: DeviceId, key: &InventoryKey) -> (r: (bool, usize))
        requires
            self.wf(),
        ensures
            r.0 ==> r.1 < self.ids().len() && self.ids()[r.1 as int] == (device, *key),
            !r.0 ==> belongs_at(self.ids(), (device, *key), r.1 as int, object_order()),
    {
        let ghost ids = self.ids();
        let ghost wanted = (device, *key);
        let mut lo: usize = 0;
        let mut hi: usize = self.rows.len();
        while lo < hi
            invariant
                0 <= lo <= hi <= ids.len(),
                ids == self.ids(),
                wanted == (device, *key),
                ids.len() == self.rows@.len(),
                ascending(ids, object_order()),
                forall|i: int|
                    0 <= i < lo ==> (#[trigger] object_order()(ids[i], wanted)) == Order::Less,
                forall|i: int|
                    hi <= i < ids.len() ==> (#[trigger] object_order()(wanted, ids[i]))
                        == Order::Less,
            decreases hi - lo,
        {
            let mid = lo + (hi - lo) / 2;
            let row = &self.rows[mid];
            let c = if row.device < device {
                Order::Less
            } else if row.device > device {
                Order::Greater
            } else {
                row.key.compare(key)
            };
            assert(c == object_order()(ids[mid as int], wanted));
            match c {
                Order::Equal => {
                    return (true, mid);
                },
                Order::Less => {
                    proof {
                        assert forall|i: int| 0 <= i < mid + 1 implies (#[trigger] object_order()(
                            ids[i],
                            wanted,
                        )) == Order::Less by {
                            if i < mid {
                                assert(object_order()(ids[i], ids[mid as int]) == Order::Less);
                            }
                        }
                    }
                    lo = mid + 1;
                },
                Order::Greater => {
                    proof {
                        assert(object_order()(wanted, ids[mid as int]) == Order::Less);
                        assert forall|i: int| mid <= i < ids.len() implies (
                        #[trigger] object_order()(wanted, ids[i])) == Order::Less by {
                            if i > mid {
                                assert(object_order()(ids[mid as int], ids[i]) == Order::Less);
                            }
                        }
                    }
                    hi = mid;
                },
            }
        }
        (false, lo)
    }

    /// Adds a path of an object. An object with fewer blocks than the
    /// minimum is dropped; a path that is already there is not added again.
    /// Returns whether the object is kept.
    pub fn insert(&mut self, device: DeviceId, key: InventoryKey, path: Arc<ObjectPath>) -> (kept:
        bool)
        requires
            old(self).wf(),
        ensures
            final(self).wf(),
            kept == (key.blocks >= old(self).min_blocks()),
            kept ==> final(self)@ == added(old(self)@, (device, key), path.names()),
            !kept ==> final(self)@ == old(self)@ && final(self).ids() == old(self).ids(),
            final(self).min_blocks() == old(self).min_blocks(),
            final(self).error_log() == old(self).error_log(),
            final(self).done() == old(self).done(),
    {
        if key.blocks < self.min_blockcount {
            return false;
        }
        let ghost id = (device, key);
        let ghost names = path.names();
        let (found, pos) = self.search(device, &key);
        proof {
            lemma_object_order_total();
            lemma_ascending_is_unique(old(self).ids(), object_order());
        }
        if found {
            let row = &mut self.rows[pos];
            row.objects.insert(path);
            proof {
                let before = old(self);
                assert(self.ids() =~= before.ids());
                assert(self.lists() =~= before.lists().update(pos as int, self.lists()[pos as int]));
                assert forall|i: int| 0 <= i < self.rows@.len() implies (
                #[trigger] self.rows@[i]).objects.wf() by {
                    if i != pos {
                        assert(self.rows@[i] == before.rows@[i]);
                    }
                }
                assert forall|i: int| 0 <= i < self.rows@.len() implies (
                #[trigger] self.lists()[i]).len() > 0 by {
                    if i != pos {
                        assert(self.lists()[i] == before.lists()[i]);
                    } else {
                        assert(before.lists()[pos as int].len() > 0);
                    }
                }
                assert forall|i: int| 0 <= i < self.rows@.len() implies (
                #[trigger] self.ids()[i]).1.blocks >= self.min_blockcount by {
                    assert(before.ids()[i].1.blocks >= before.min_blockcount);
                }
                lemma_index_of(before.ids(), pos as int);
                assert(before@.dom().contains(id));
                assert forall|other: ObjectId| self@.dom().contains(other) implies #[trigger] self@[other]
                    == added(before@, id, names)[other] by {
                    let i = index_of(before.ids(), other);
                    if other != id {
                        assert(i != pos);
                        assert(self.lists()[i] == before.lists()[i]);
                    }
                }
                assert(self@ =~= added(before@, id, names));
            }
        } else {
            let mut objects = ObjectList::new();
            objects.insert(path);
            self.rows.insert(pos, InventoryRow { device, key, objects });
            proof {
                let before = old(self);
                lemma_belongs_means_absent(before.ids(), id, pos as int, object_order());
                lemma_insert_keeps_ascending(before.ids(), id, pos as int, object_order());
                assert(self.ids() =~= before.ids().insert(pos as int, id));
                lemma_ascending_is_unique(self.ids(), object_order());
                assert(objects@.to_set() =~= Set::<Seq<Seq<u8>>>::empty().insert(names));
                assert forall|i: int| 0 <= i < self.rows@.len() implies (
                #[trigger] self.rows@[i]).objects.wf() by {
                    if i < pos {
                        assert(self.rows@[i] == before.rows@[i]);
                    } else if i > pos {
                        assert(self.rows@[i] == before.rows@[i - 1]);
                    }
                }
                assert forall|i: int| 0 <= i < self.rows@.len() implies (
                #[trigger] self.lists()[i]).len() > 0 by {
                    if i < pos {
                        assert(self.lists()[i] == before.lists()[i]);
                    } else if i > pos {
                        assert(self.lists()[i] == before.lists()[i - 1]);
                    }
                }
                assert forall|i: int| 0 <= i < self.rows@.len() implies (
                #[trigger] self.ids()[i]).1.blocks >= self.min_blockcount by {
                    if i < pos {
                        assert(before.ids()[i].1.blocks >= before.min_blockcount);
                    } else if i > pos {
                        assert(before.ids()[i - 1].1.blocks >= before.min_blockcount);
                    }
                }
                assert forall|other: ObjectId| self@.dom().contains(other) <==> added(
                    before@,
                    id,
                    names,
                ).dom().contains(other) by {
                    if before.ids().contains(other) {
                        let i = index_of(before.ids(), other);
                        if i < pos {
                            assert(self.ids()[i] == other);
                        } else {
                            assert(self.ids()[i + 1] == other);
                        }
                    }
                    if self.ids().contains(other) {
                        let i = index_of(self.ids(), other);
                        if i < pos {
                            assert(before.ids()[i] == other);
                        } else if i > pos {
                            assert(before.ids()[i - 1] == other);
                        }
                    }
                    if other == id {
                        assert(self.ids()[pos as int] == other);
                    }
                }
                assert forall|other: ObjectId| self@.dom().contains(other) implies #[trigger] self@[other]
                    == added(before@, id, names)[other] by {
                    if other == id {
                        lemma_index_of(self.ids(), pos as int);
                    } else {
                        let i = index_of(before.ids(), other);
                        assert(before.ids().contains(other));
                        let j = if i < pos {
                            i
                        } else {
                            i + 1
                        };
                        assert(self.ids()[j] == other);
                        lemma_index_of(self.ids(), j);
                        assert(self.lists()[j] == before.lists()[i]);
                    }
                }
                assert(self@ =~= added(before@, id, names));
            }
        }
        true
    }

    /// Takes one message of the gatherer's output: an entry is added, an
    /// error goes to the error log, and `Done` completes the inventory.
    /// Returns `true` for `Done`.
    pub fn receive(&mut self, message: InventoryEntriesMessage) -> (completed: bool)
        requires
            old(self).wf(),
        ensures
            final(self).wf(),
            final(self).min_blocks() == old(self).min_blocks(),
            completed == (message is Done),
            match message {
                InventoryEntriesMessage::Entry(device, key, path) => {
                    &&& final(self)@ == if key.blocks >= old(self).min_blocks() {
                        added(old(self)@, (device, key), path.names())
                    } else {
                        old(self)@
                    }
                    &&& final(self).error_log() == old(self).error_log()
                    &&& final(self).done() == old(self).done()
                },
                InventoryEntriesMessage::Error(path, kind) => {
                    &&& final(self)@ == old(self)@
                    &&& final(self).error_log() == old(self).error_log().push((path.names(), kind))
                    &&& final(self).done() == old(self).done()
                },
                InventoryEntriesMessage::Done => {
                    &&& final(self)@ == old(self)@
                    &&& final(self).error_log() == old(self).error_log()
                    &&& final(self).done()
                },
            },
    {
        match message {
            InventoryEntriesMessage::Entry(device, key, path) => {
                let _ = self.insert(device, key, path);
                false
            },
            InventoryEntriesMessage::Error(path, kind) => {
                self.errors.push((path, kind));
                proof {
                    assert(self.ids() =~= old(self).ids());
                    assert(self.lists() =~= old(self).lists());
                    assert(self.error_log() =~= old(self).error_log().push((path.names(), kind)));
                    assert(self@ =~= old(self)@);
                }
                false
            },
            InventoryEntriesMessage::Done => {
                self.done = true;
                proof {
                    assert(self.ids() =~= old(self).ids());
                    assert(self.lists() =~= old(self).lists());
                    assert(self.error_log() =~= old(self).error_log());
                    assert(self@ =~= old(self)@);
                }
                true
            },
        }
    }

    /// The number of objects.
    pub fn len(&self) -> (n: usize)
        ensures
            n == self.ids().len(),
    {
        self.rows.len()
    }

    /// Whether the inventory holds no object.
    pub fn is_empty(&self) -> (r: bool)
        ensures
            r == (self.ids().len() == 0),
    {
        self.rows.len() == 0
    }

    /// Whether `Done` has arrived.
    pub fn is_done(&self) -> (r: bool)
        ensures
            r == self.done(),
    {
        self.done
    }

    /// The number of errors in the error log.
    pub fn error_count(&self) -> (n: usize)
        ensures
            n == self.error_log().len(),
    {
        self.errors.len()
    }

    /// The error at place `index` of the error log.
    pub fn error_at(&self, index: usize) -> (r: Option<(&Arc<ObjectPath>, ErrorKind)>)
        ensures
            index >= self.error_log().len() ==> r is None,
            index < self.error_log().len() ==> (r matches Some(e) && (e.0.names(), e.1)
                == self.error_log()[index as int]),
    {
        if index < self.errors.len() {
            let entry = &self.errors[index];
            Some((&entry.0, entry.1))
        } else {
            None
        }
    }

    /// The paths of an object, if the inventory holds it.
    pub fn objects(&self, device: DeviceId, key: InventoryKey) -> (r: Option<&ObjectList>)
        requires
            self.wf(),
        ensures
            r is Some == self@.dom().contains((device, key)),
            r matches Some(list) ==> list.wf() && list@.to_set() == self@[(device, key)],
    {
        let (found, pos) = self.search(device, &key);
        proof {
            lemma_object_order_total();
            lemma_ascending_is_unique(self.ids(), object_order());
        }
        if found {
            proof {
                lemma_index_of(self.ids(), pos as int);
            }
            Some(&self.rows[pos].objects)
        } else {
            proof {
                lemma_belongs_means_absent(self.ids(), (device, key), pos as int, object_order());
            }
            None
        }
    }

    /// The objects in the order of deletion: the storage order read from
    /// the back, so that on every device the largest object comes first.
    pub fn deletion_order(&self) -> (order: Vec<ObjectId>)
        requires
            self.wf(),
        ensures
            order@ == self.ids().reverse(),
            forall|i: int, j: int|
                0 <= i < j < order@.len() ==> (#[trigger] object_order()(order@[i], order@[j]))
                    == Order::Greater,
    {
        let mut order: Vec<ObjectId> = Vec::with_capacity(self.rows.len());
        let mut i: usize = self.rows.len();
        while i > 0
            invariant
                0 <= i <= self.rows@.len(),
                order@.len() == self.rows@.len() - i,
                forall|k: int|
                    0 <= k < order@.len() ==> #[trigger] order@[k] == self.ids()[self.rows@.len()
                        - 1 - k],
            decreases i,
        {
            i = i - 1;
            let row = &self.rows[i];
            order.push((row.device, row.key));
        }
        proof {
            lemma_object_order_total();
            assert(order@ =~= self.ids().reverse());
            assert forall|a: int, b: int| 0 <= a < b < order@.len() implies (
            #[trigger] object_order()(order@[a], order@[b])) == Order::Greater by {
                let n = self.ids().len();
                assert(object_order()(self.ids()[n - 1 - b], self.ids()[n - 1 - a]) == Order::Less);
            }
        }
        order
    }
}

} // verus!
