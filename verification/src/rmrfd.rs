//! The configuration of the daemon and the state it starts with.
use crate::inventory::{Aliases, Inventory, ObjectId};
use crate::inventory_gatherer::{DirectoryGatherMessage, InventoryGatherer};
use crate::objectpath::ObjectPath;
use crate::priority_queue::QueueState;
use std::sync::Arc;
use vstd::prelude::*;

verus! {

/// The number of gathering threads, unless configured.
pub const DEFAULT_GATHER_THREADS: usize = 16;

/// The capacity of the output of the gatherer, unless configured.
pub const DEFAULT_INVENTORY_BACKLOG: usize = 65536;

/// The number of output channels, unless configured.
pub const DEFAULT_INVENTORY_THREADS: usize = 1;

/// Filter for files of at least 32kb: smaller ones would only bloat memory
/// and give not much benefit when deleting in size order.
pub const DEFAULT_MIN_BLOCKCOUNT: u64 = 64;

/// Why a directory was not registered.
#[derive(Debug, Clone, Copy, PartialEq, Eq, Structural)]
pub enum RmrfdError {
    /// The path does not lead to a directory.
    NotADirectory,
}

/// The device on which a registered directory lives: that of the last
/// registration of its path, if there is one.
pub open spec fn device_of(dirs: Seq<(Seq<Seq<u8>>, u64)>, path: Seq<Seq<u8>>) -> Option<u64>
    decreases dirs.len(),
{
    if dirs.len() == 0 {
        None
    } else if dirs.last().0 == path {
        Some(dirs.last().1)
    } else {
        device_of(dirs.drop_last(), path)
    }
}

/// The configuration as a value.
pub struct Settings {
    /// The capacity of the output of the gatherer.
    pub inventory_backlog: usize,
    /// The number of gathering threads.
    pub gather_threads: usize,
    /// The number of output channels.
    pub inventory_threads: usize,
    /// Objects with fewer blocks are not gathered.
    pub min_blockcount: u64,
    /// The registered directories with their devices, in the order of
    /// registration.
    pub dirs: Seq<(Seq<Seq<u8>>, u64)>,
    /// The safety switch.
    pub armed: bool,
}

/// Builder for constructing the daemon.
#[derive(Debug)]
pub struct RmrfdBuilder {
    inventory_backlog: usize,
    gather_threads: usize,
    inventory_threads: usize,
    min_blockcount: u64,
    rmrf_dirs: Vec<(Arc<ObjectPath>, u64)>,
    rmrf_armed: bool,
}

/// The registered directories as values.
pub open spec fn dirs_view(dirs: Seq<(Arc<ObjectPath>, u64)>) -> Seq<(Seq<Seq<u8>>, u64)> {
    Seq::new(dirs.len(), |i: int| (dirs[i].0.names(), dirs[i].1))
}

impl View for RmrfdBuilder {
    type V = Settings;

    closed spec fn view(&self) -> Settings {
        Settings {
            inventory_backlog: self.inventory_backlog,
            gather_threads: self.gather_threads,
            inventory_threads: self.inventory_threads,
            min_blockcount: self.min_blockcount,
            dirs: dirs_view(self.rmrf_dirs@),
            armed: self.rmrf_armed,
        }
    }
}

impl Default for RmrfdBuilder {
    /// Create a RmrfdBuilder with reasonable defaults.
    fn default() -> (builder: Self)
        ensures
            builder@ == (Settings {
                inventory_backlog: DEFAULT_INVENTORY_BACKLOG,
                gather_threads: DEFAULT_GATHER_THREADS,
                inventory_threads: DEFAULT_INVENTORY_THREADS,
                min_blockcount: DEFAULT_MIN_BLOCKCOUNT,
                dirs: Seq::empty(),
                armed: false,
            }),
    {
        let builder = RmrfdBuilder {
            inventory_backlog: DEFAULT_INVENTORY_BACKLOG,
            gather_threads: DEFAULT_GATHER_THREADS,
            inventory_threads: DEFAULT_INVENTORY_THREADS,
            min_blockcount: DEFAULT_MIN_BLOCKCOUNT,
            rmrf_dirs: Vec::new(),
            rmrf_armed: false,
        };
        assert(builder@.dirs =~= Seq::empty());
        builder
    }
}

impl RmrfdBuilder {
    /// How many InventoryEntries can be pending. The consumer of the
    /// gatherer's output should in most cases be much faster than the
    /// directory worker threads. Thus this number can be small.
    pub fn with_inventory_backlog(self, n: usize) -> (builder: Self)
        requires
            n > 0,
        ensures
            builder@ == (Settings { inventory_backlog: n, armed: false, ..self@ }),
    {
        let mut builder = self;
        builder.rmrf_armed = false;
        builder.inventory_backlog = n;
        builder
    }

    /// How many worker threads are used to gather the inventory.
    pub fn with_gather_threads(self, n: usize) -> (builder: Self)
        requires
            n > 0,
        ensures
            builder@ == (Settings { gather_threads: n, armed: false, ..self@ }),
    {
        let mut builder = self;
        builder.rmrf_armed = false;
        builder.gather_threads = n;
        builder
    }

    /// The number of threads the inventory uses to process entries.
    pub fn with_inventory_threads(self, n: usize) -> (builder: Self)
        requires
            n > 0,
        ensures
            builder@ == (Settings { inventory_threads: n, armed: false, ..self@ }),
    {
        let mut builder = self;
        builder.rmrf_armed = false;
        builder.inventory_threads = n;
        builder
    }

    /// Filter for files only larger than these much (512 byte) blocks.
    pub fn with_min_blockcount(self, c: u64) -> (builder: Self)
        ensures
            builder@ == (Settings { min_blockcount: c, armed: false, ..self@ }),
    {
        let mut builder = self;
        builder.rmrf_armed = false;
        builder.min_blockcount = c;
        builder
    }

    /// Safety switch, without arming nothing will be deleted, used for
    /// testing and do nothing options. Arming must be the last call before
    /// `start()`: every other setting disarms.
    pub fn arm(self, state: bool) -> (builder: Self)
        ensures
            builder@ == (Settings { armed: state, ..self@ }),
    {
        let mut builder = self;
        builder.rmrf_armed = state;
        builder
    }

    /// Register a directory that is watched for deleting entries. The
    /// caller has made the path canonical and says whether it leads to a
    /// directory and on which device that lives.
    pub fn add_dir(self, canonical_path: &[u8], is_dir: bool, dev: u64) -> (r: Result<
        Self,
        RmrfdError,
    >)
        ensures
            !is_dir ==> r == Err::<Self, RmrfdError>(RmrfdError::NotADirectory),
            is_dir ==> (r matches Ok(builder) && builder@ == (Settings {
                dirs: self@.dirs.push((seq![canonical_path@], dev)),
                armed: false,
                ..self@
            })),
    {
        if !is_dir {
            return Err(RmrfdError::NotADirectory);
        }
        let mut builder = self;
        builder.rmrf_armed = false;
        builder.rmrf_dirs.push((ObjectPath::new(canonical_path), dev));
        assert(builder@.dirs =~= self@.dirs.push((seq![canonical_path@], dev)));
        Ok(builder)
    }

    /// Creates the state that the daemon starts with: an idle gatherer and
    /// an empty inventory. Starting the worker threads is left to the
    /// caller.
    pub fn start<D>(self) -> (daemon: Rmrfd<D>)
        ensures
            daemon.wf(),
            daemon.armed() == self@.armed,
            daemon.dirs() == self@.dirs,
            daemon.inventory() == Map::<ObjectId, Aliases>::empty(),
            daemon.min_blocks() == self@.min_blockcount,
            daemon.pool() == (self@.gather_threads, self@.inventory_backlog),
            daemon.channels() == self@.inventory_threads,
            daemon.queue() == QueueState::<DirectoryGatherMessage<D>>::idle(),
    {
        Rmrfd {
            inventory_gatherer: InventoryGatherer::new(
                self.min_blockcount,
                self.gather_threads,
                self.inventory_backlog,
            ),
            inventory: Inventory::new(self.min_blockcount),
            inventory_threads: self.inventory_threads,
            rmrf_dirs: self.rmrf_dirs,
            rmrf_armed: self.rmrf_armed,
        }
    }
}

/// The daemon state.
#[derive(Debug)]
pub struct Rmrfd<D> {
    inventory_gatherer: InventoryGatherer<D>,
    inventory: Inventory,
    inventory_threads: usize,
    rmrf_dirs: Vec<(Arc<ObjectPath>, u64)>,
    rmrf_armed: bool,
}

impl<D> Rmrfd<D> {
    /// Delegate construction to a builder.
    #[must_use]
    pub fn build() -> (builder: RmrfdBuilder)
        ensures
            builder@ == (Settings {
                inventory_backlog: DEFAULT_INVENTORY_BACKLOG,
                gather_threads: DEFAULT_GATHER_THREADS,
                inventory_threads: DEFAULT_INVENTORY_THREADS,
                min_blockcount: DEFAULT_MIN_BLOCKCOUNT,
                dirs: Seq::empty(),
                armed: false,
            }),
    {
        RmrfdBuilder::default()
    }

    /// The safety switch.
    pub closed spec fn armed(&self) -> bool {
        self.rmrf_armed
    }

    /// The registered directories with their devices.
    pub closed spec fn dirs(&self) -> Seq<(Seq<Seq<u8>>, u64)> {
        dirs_view(self.rmrf_dirs@)
    }

    /// What the inventory holds.
    pub closed spec fn inventory(&self) -> Map<ObjectId, Aliases> {
        self.inventory@
    }

    /// Objects with fewer blocks are neither gathered nor kept.
    pub closed spec fn min_blocks(&self) -> u64 {
        self.inventory_gatherer.min_blocks()
    }

    /// The number of worker threads and the capacity of the output.
    pub closed spec fn pool(&self) -> (usize, usize) {
        self.inventory_gatherer.pool()
    }

    /// The number of output channels.
    pub closed spec fn channels(&self) -> usize {
        self.inventory_threads
    }

    /// The queue of directories to process.
    pub closed spec fn queue(&self) -> QueueState<DirectoryGatherMessage<D>> {
        self.inventory_gatherer.queue()
    }

    /// The invariant of the daemon state.
    pub closed spec fn wf(&self) -> bool {
        &&& self.inventory_gatherer.wf()
        &&& self.inventory.wf()
        &&& self.inventory.min_blocks() == self.inventory_gatherer.min_blocks()
    }

    /// Whether destructive calls are allowed.
    pub fn is_armed(&self) -> (r: bool)
        ensures
            r == self.armed(),
    {
        self.rmrf_armed
    }

    /// The number of output channels.
    pub fn inventory_threads(&self) -> (n: usize)
        ensures
            n == self.channels(),
    {
        self.inventory_threads
    }

    /// The device of a registered directory, by its canonical path.
    pub fn watched_device(&self, canonical_path: &[u8]) -> (r: Option<u64>)
        ensures
            r == device_of(self.dirs(), seq![canonical_path@]),
    {
        let wanted = ObjectPath::new(canonical_path);
        let mut i: usize = self.rmrf_dirs.len();
        let ghost dirs = self.dirs();
        assert(dirs.take(i as int) =~= dirs);
        while i > 0
            invariant
                0 <= i <= self.rmrf_dirs@.len(),
                dirs == self.dirs(),
                wanted.names() == seq![canonical_path@],
                device_of(dirs, wanted.names()) == device_of(dirs.take(i as int), wanted.names()),
            decreases i,
        {
            i = i - 1;
            let found = *self.rmrf_dirs[i].0 == *wanted;
            assert(found == (dirs[i as int].0 == wanted.names()));
            proof {
                assert(dirs.take(i + 1).last() == dirs[i as int]);
                assert(dirs.take(i + 1).drop_last() =~= dirs.take(i as int));
            }
            if found {
                return Some(self.rmrf_dirs[i].1);
            }
        }
        proof {
            assert(dirs.take(0).len() == 0);
        }
        None
    }

    /// Hands out the parts of the state: the gatherer, for the worker
    /// threads, and the inventory, for the thread that assembles it.
    pub fn into_parts(self) -> (parts: (InventoryGatherer<D>, Inventory))
        requires
            self.wf(),
        ensures
            parts.0.wf(),
            parts.1.wf(),
            parts.0.queue() == self.queue(),
            parts.0.min_blocks() == self.min_blocks(),
            parts.0.pool() == self.pool(),
            parts.1.min_blocks() == self.min_blocks(),
            parts.1@ == self.inventory(),
    {
        (self.inventory_gatherer, self.inventory)
    }
}

} // verus!
