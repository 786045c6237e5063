//! The decisions of the directory gatherer.
//!
//! Worker threads walk directories. Each sub-directory found goes back onto
//! the queue of directories to process; files are filtered by the number of
//! blocks they occupy, and those that pass go to the output. The gatherer
//! here holds the state that the workers share and decides what happens
//! next; opening, listing and `stat` are done by the caller, who reports
//! what came of them.
use crate::internednames::InternedNames;
use crate::objectpath::{path_bytes, ObjectPath, MAX_DEPTH};
use crate::order::Order;
use crate::priority_queue::{PriorityQueue, QueueEntry, QueueState, ReceiveGuard};
use std::sync::Arc;
use vstd::prelude::*;

verus! {

/// The priority of a directory that a caller submits: the largest, so that
/// it runs only when no sub-directory is waiting.
pub const ROOT_PRIORITY: u64 = 0xffff_ffff_ffff_ffff;

/// The number of low bits of a priority that hold the inode.
pub const INODE_BITS: u64 = 48;

/// Identifies an object on one device: the blocks it occupies, then its
/// inode. Keys are ordered by blocks first, so the largest objects come
/// last.
#[derive(Debug, Clone, Copy, PartialEq, Eq, Structural, Hash)]
pub struct InventoryKey {
    /// Allocated blocks of 512 bytes.
    pub blocks: u64,
    /// The inode number.
    pub ino: u64,
}

/// The order of keys: by blocks, then by inode.
pub open spec fn key_lex(a: InventoryKey, b: InventoryKey) -> Order {
    if a.blocks < b.blocks {
        Order::Less
    } else if a.blocks > b.blocks {
        Order::Greater
    } else if a.ino < b.ino {
        Order::Less
    } else if a.ino > b.ino {
        Order::Greater
    } else {
        Order::Equal
    }
}

impl InventoryKey {
    /// Creates a key.
    pub fn new(blocks: u64, ino: u64) -> (key: InventoryKey)
        ensures
            key == (InventoryKey { blocks, ino }),
    {
        InventoryKey { blocks, ino }
    }

    /// Compares two keys: by blocks, then by inode.
    pub fn compare(&self, other: &InventoryKey) -> (r: Order)
        ensures
            r == key_lex(*self, *other),
    {
        if self.blocks < other.blocks {
            Order::Less
        } else if self.blocks > other.blocks {
            Order::Greater
        } else if self.ino < other.ino {
            Order::Less
        } else if self.ino > other.ino {
            Order::Greater
        } else {
            Order::Equal
        }
    }
}

/// What a directory entry is, as far as the listing tells.
#[derive(Debug, Clone, Copy, PartialEq, Eq, Structural)]
pub enum SimpleType {
    /// Entry is a symlink.
    Symlink,
    /// Entry is a directory.
    Dir,
    /// Entry is a regular file.
    File,
    /// Entry is neither a symlink, directory nor a regular file.
    Other,
}

/// One entry of a directory listing.
#[derive(Debug)]
pub struct DirEntry {
    /// The file name.
    pub name: Vec<u8>,
    /// The type, where the listing gives one.
    pub file_type: Option<SimpleType>,
    /// The inode number.
    pub inode: u64,
}

/// What `stat` told about an entry, as far as the gatherer reads it.
#[derive(Debug, Clone, Copy)]
pub struct EntryMetadata {
    /// The device the object lives on.
    pub dev: Option<u64>,
    /// Allocated blocks of 512 bytes.
    pub blocks: Option<u64>,
}

/// Why a path could not be gathered.
#[derive(Debug, Clone, Copy, PartialEq, Eq, Structural)]
pub enum ErrorKind {
    /// Reading the directory gave a broken entry.
    InvalidEntry,
    /// The directory could not be opened.
    OpenFailed,
    /// The metadata of an entry could not be read.
    StatFailed,
    /// Listing the directory failed.
    EnumerationFailed,
    /// The consumer of the output is gone.
    ChannelClosed,
}

impl ErrorKind {
    /// A short text for the log.
    pub fn describe(&self) -> (text: &'static str)
        ensures
            text@ == match *self {
                ErrorKind::InvalidEntry => "Invalid directory entry"@,
                ErrorKind::OpenFailed => "Could not open"@,
                ErrorKind::StatFailed => "Failed get metadata"@,
                ErrorKind::EnumerationFailed => "Could not iterate"@,
                ErrorKind::ChannelClosed => "Output channel closed"@,
            },
    {
        match self {
            ErrorKind::InvalidEntry => "Invalid directory entry",
            ErrorKind::OpenFailed => "Could not open",
            ErrorKind::StatFailed => "Failed get metadata",
            ErrorKind::EnumerationFailed => "Could not iterate",
            ErrorKind::ChannelClosed => "Output channel closed",
        }
    }

    /// Whether a worker goes on after this error. Only a closed output
    /// stops it.
    pub fn is_recoverable(&self) -> (r: bool)
        ensures
            r == !(*self is ChannelClosed),
    {
        match self {
            ErrorKind::ChannelClosed => false,
            _ => true,
        }
    }
}

/// Messages on the input queue, directories to be processed.
#[derive(Debug)]
pub enum DirectoryGatherMessage<D> {
    /// Path and parent handle of a directory to be traversed. The handle to
    /// the directory itself will be opened by the thread processing it.
    TraverseDirectory {
        /// The directory.
        path: Arc<ObjectPath>,
        /// The open handle of its parent, if there is one.
        parent_dir: Option<Arc<D>>,
    },
}

impl<D> DirectoryGatherMessage<D> {
    /// The names of the directory's path, root first.
    pub open spec fn path_names(&self) -> Seq<Seq<u8>> {
        match *self {
            DirectoryGatherMessage::TraverseDirectory { path, .. } => path.names(),
        }
    }

    /// The handle of the parent directory.
    pub open spec fn parent(&self) -> Option<Arc<D>> {
        match *self {
            DirectoryGatherMessage::TraverseDirectory { parent_dir, .. } => parent_dir,
        }
    }

    /// Create a new 'TraverseDirectory' message.
    pub fn new_dir(path: Arc<ObjectPath>) -> (message: Self)
        ensures
            message == (DirectoryGatherMessage::<D>::TraverseDirectory { path, parent_dir: None }),
    {
        DirectoryGatherMessage::TraverseDirectory { path, parent_dir: None }
    }

    /// Attach a parent handle to a 'TraverseDirectory' message.
    pub fn with_parent(self, parent: Arc<D>) -> (message: Self)
        ensures
            match self {
                DirectoryGatherMessage::TraverseDirectory { path, .. } => message == (
                DirectoryGatherMessage::TraverseDirectory { path, parent_dir: Some(parent) }),
            },
    {
        match self {
            DirectoryGatherMessage::TraverseDirectory { path, .. } => {
                DirectoryGatherMessage::TraverseDirectory { path, parent_dir: Some(parent) }
            },
        }
    }
}

/// Messages on the output queue: collected entries, errors passed up, and
/// `Done` when the queue of directories ran dry.
#[derive(Debug)]
pub enum InventoryEntriesMessage {
    /// An object that passed the filter: device, key and path.
    Entry(u64, InventoryKey, Arc<ObjectPath>),
    /// A path that could not be gathered, and why.
    Error(Arc<ObjectPath>, ErrorKind),
    /// No directory is queued and none is being processed.
    Done,
}

/// What the caller does with a directory entry after `process_entry`.
#[derive(Debug, Clone, Copy, PartialEq, Eq, Structural)]
pub enum EntryAction {
    /// The entry is a directory and was queued: nothing is left to do.
    Queued,
    /// Fetch the metadata of the entry and hand it to `process_metadata`.
    Stat,
}

/// What a worker does with an entry that it received from the queue.
#[derive(Debug)]
pub enum WorkerStep<D> {
    /// Open the directory by its name, relative to the handle of its
    /// parent, and list it.
    OpenAt {
        /// The handle of the parent.
        parent: Arc<D>,
        /// The directory.
        path: Arc<ObjectPath>,
    },
    /// Open the directory by its full path, and list it.
    Open {
        /// The directory.
        path: Arc<ObjectPath>,
        /// Its path, written out.
        full_path: Vec<u8>,
    },
    /// Put the message on the output.
    Emit(InventoryEntriesMessage),
    /// The guard holds no entry.
    Nothing,
}

/// How far a worker has come with one directory.
#[derive(Debug, Clone, Copy, PartialEq, Eq, Structural)]
pub enum WorkState {
    /// The directory waits on the queue.
    Queued,
    /// A worker holds its open handle.
    Opened,
    /// The worker goes through its entries.
    Enumerating,
    /// Every entry was handled.
    Finished,
    /// The directory could not be opened.
    FailedOpen,
    /// The directory could not be listed.
    FailedEnumerate,
}

/// What happens to a directory under work.
#[derive(Debug, Clone, Copy, PartialEq, Eq, Structural)]
pub enum WorkEvent {
    /// Opening succeeded.
    Opened,
    /// Opening failed.
    OpenFailed,
    /// The listing was started.
    Listing,
    /// The listing could not be started.
    ListFailed,
    /// The last entry was handled.
    EndOfDirectory,
}

impl WorkState {
    /// The state after `event`, where the event can happen in this state.
    pub open spec fn after(self, event: WorkEvent) -> Option<WorkState> {
        match (self, event) {
            (WorkState::Queued, WorkEvent::Opened) => Some(WorkState::Opened),
            (WorkState::Queued, WorkEvent::OpenFailed) => Some(WorkState::FailedOpen),
            (WorkState::Opened, WorkEvent::Listing) => Some(WorkState::Enumerating),
            (WorkState::Opened, WorkEvent::ListFailed) => Some(WorkState::FailedEnumerate),
            (WorkState::Enumerating, WorkEvent::EndOfDirectory) => Some(WorkState::Finished),
            _ => None,
        }
    }

    /// Sub-directories are queued while the entries are gone through.
    pub open spec fn queues_work(self) -> bool {
        self is Enumerating
    }

    /// Follows `event`; `None` where it cannot happen in this state.
    pub fn advance(self, event: WorkEvent) -> (next: Option<WorkState>)
        ensures
            next == self.after(event),
    {
        match (self, event) {
            (WorkState::Queued, WorkEvent::Opened) => Some(WorkState::Opened),
            (WorkState::Queued, WorkEvent::OpenFailed) => Some(WorkState::FailedOpen),
            (WorkState::Opened, WorkEvent::Listing) => Some(WorkState::Enumerating),
            (WorkState::Opened, WorkEvent::ListFailed) => Some(WorkState::FailedEnumerate),
            (WorkState::Enumerating, WorkEvent::EndOfDirectory) => Some(WorkState::Finished),
            _ => None,
        }
    }

    /// No event follows: the worker is done with the directory.
    pub fn is_final(self) -> (r: bool)
        ensures
            r == (self is Finished || self is FailedOpen || self is FailedEnumerate),
            r == (forall|event: WorkEvent| self.after(event) is None),
    {
        proof {
            if !(self is Finished || self is FailedOpen || self is FailedEnumerate) {
                assert(self.after(WorkEvent::Opened) is Some || self.after(WorkEvent::Listing)
                    is Some || self.after(WorkEvent::EndOfDirectory) is Some);
            }
        }
        match self {
            WorkState::Finished | WorkState::FailedOpen | WorkState::FailedEnumerate => true,
            _ => false,
        }
    }
}

/// The states that a directory goes through, from the queue on.
pub open spec fn states_after(events: Seq<WorkEvent>) -> Option<WorkState>
    decreases events.len(),
{
    if events.len() == 0 {
        Some(WorkState::Queued)
    } else {
        match states_after(events.drop_last()) {
            Some(state) => state.after(events.last()),
            None => None,
        }
    }
}

/// Only a finished directory may have queued sub-directories. A directory
/// that ends in one of the failed states never went through its entries.
pub proof fn theorem_failed_work_queued_nothing(events: Seq<WorkEvent>, k: int)
    requires
        states_after(events) == Some(WorkState::FailedOpen) || states_after(events) == Some(
            WorkState::FailedEnumerate,
        ),
        0 <= k <= events.len(),
    ensures
        states_after(events.take(k)) matches Some(state) && !state.queues_work(),
    decreases events.len() - k,
{
    lemma_work_history(events);
    if k < events.len() {
        theorem_failed_work_queued_nothing(events, k + 1);
        assert(events.take(k + 1).drop_last() =~= events.take(k));
    } else {
        assert(events.take(k) =~= events);
    }
}

/// What a history of events leads to: the states lie on the two paths from
/// the queue, and each is reached by one history alone.
proof fn lemma_work_history(events: Seq<WorkEvent>)
    ensures
        states_after(events) == Some(WorkState::Queued) ==> events.len() == 0,
        states_after(events) == Some(WorkState::Opened) ==> events.len() == 1,
        states_after(events) == Some(WorkState::FailedOpen) ==> events.len() == 1,
        states_after(events) == Some(WorkState::Enumerating) ==> events.len() == 2,
        states_after(events) == Some(WorkState::FailedEnumerate) ==> events.len() == 2,
        states_after(events) == Some(WorkState::Finished) ==> events.len() == 3,
    decreases events.len(),
{
    if events.len() > 0 {
        lemma_work_history(events.drop_last());
    }
}

/// The depth as far as the priority tells it apart.
pub open spec fn clamp_depth(depth: nat) -> u16 {
    if depth < MAX_DEPTH {
        depth as u16
    } else {
        MAX_DEPTH
    }
}

/// The priority of a sub-directory: the depth counted down from
/// `MAX_DEPTH` in the high 16 bits, the inode below.
pub open spec fn dir_priority(depth: u16, inode: u64) -> u64 {
    (((MAX_DEPTH - depth) as u64) << INODE_BITS) | inode
}

/// The priority of a sub-directory at `depth` with inode `inode`.
pub fn directory_priority(depth: u16, inode: u64) -> (prio: u64)
    ensures
        prio == dir_priority(depth, inode),
{
    let up: u64 = (MAX_DEPTH - depth) as u64;
    assert((up << 48) <= 0xffff_0000_0000_0000u64) by (bit_vector)
        requires
            up <= 0xffff,
    ;
    (up << INODE_BITS) | inode
}

/// Deepest first, then by inode. Of two sub-directories whose inodes fit
/// in 48 bits, the deeper one has the smaller priority, and at the same
/// depth the one with the smaller inode has. No sub-directory comes behind
/// a submitted root.
pub proof fn theorem_priority_order(d1: u16, i1: u64, d2: u16, i2: u64)
    requires
        i1 < 0x1_0000_0000_0000,
        i2 < 0x1_0000_0000_0000,
    ensures
        d1 > d2 ==> dir_priority(d1, i1) < dir_priority(d2, i2),
        d1 == d2 && i1 < i2 ==> dir_priority(d1, i1) < dir_priority(d2, i2),
        dir_priority(d1, i1) <= ROOT_PRIORITY,
{
    let u1: u64 = (MAX_DEPTH - d1) as u64;
    let u2: u64 = (MAX_DEPTH - d2) as u64;
    assert(u1 < u2 ==> ((u1 << 48) | i1) < ((u2 << 48) | i2)) by (bit_vector)
        requires
            u1 <= 0xffff,
            u2 <= 0xffff,
            i1 < 0x1_0000_0000_0000,
            i2 < 0x1_0000_0000_0000,
    ;
    assert(u1 == u2 && i1 < i2 ==> ((u1 << 48) | i1) < ((u2 << 48) | i2)) by (bit_vector)
        requires
            u1 <= 0xffff,
            u2 <= 0xffff,
            i1 < 0x1_0000_0000_0000,
            i2 < 0x1_0000_0000_0000,
    ;
}

/// The shared state of the workers that walk directories.
#[derive(Debug)]
pub struct InventoryGatherer<D> {
    names: InternedNames,
    dirs_queue: PriorityQueue<DirectoryGatherMessage<D>>,
    num_threads: usize,
    inventory_backlog: usize,
    min_blocks: u64,
    inventory_send_queue_pending: usize,
}

impl<D> InventoryGatherer<D> {
    /// The file names seen so far.
    pub closed spec fn names(&self) -> Set<Seq<u8>> {
        self.names@
    }

    /// The queue of directories to process.
    pub closed spec fn queue(&self) -> QueueState<DirectoryGatherMessage<D>> {
        self.dirs_queue@
    }

    /// Objects with fewer blocks are dropped.
    pub closed spec fn min_blocks(&self) -> u64 {
        self.min_blocks
    }

    /// Messages handed out for the output and not yet reported consumed.
    pub closed spec fn pending(&self) -> usize {
        self.inventory_send_queue_pending
    }

    /// The number of worker threads and the capacity of the output.
    pub closed spec fn pool(&self) -> (usize, usize) {
        (self.num_threads, self.inventory_backlog)
    }

    /// The invariant of the gatherer.
    pub closed spec fn wf(&self) -> bool {
        self.names.wf() && self.dirs_queue@.wf()
    }

    /// The queue of a gatherer keeps the invariant of queues.
    pub proof fn lemma_queue_wf(&self)
        requires
            self.wf(),
        ensures
            self.queue().wf(),
    {
    }

    /// Create an InventoryGatherer. 'min_blocks' sets a pre-filter for
    /// keeping only files which have at least this many blocks (512 bytes)
    /// allocated. The number of worker threads and the capacity of the
    /// output are kept for whoever starts the workers.
    pub fn new(min_blocks: u64, num_threads: usize, inventory_backlog: usize) -> (gatherer: Self)
        ensures
            gatherer.wf(),
            gatherer.min_blocks() == min_blocks,
            gatherer.pool() == (num_threads, inventory_backlog),
            gatherer.names() == Set::<Seq<u8>>::empty(),
            gatherer.queue() == QueueState::<DirectoryGatherMessage<D>>::idle(),
            gatherer.pending() == 0,
    {
        InventoryGatherer {
            names: InternedNames::new(),
            dirs_queue: PriorityQueue::new(),
            num_threads,
            inventory_backlog,
            min_blocks,
            inventory_send_queue_pending: 0,
        }
    }

    /// The number of worker threads to start.
    pub fn num_threads(&self) -> (n: usize)
        ensures
            n == self.pool().0,
    {
        self.num_threads
    }

    /// The capacity of the bounded output channel.
    pub fn inventory_backlog(&self) -> (n: usize)
        ensures
            n == self.pool().1,
    {
        self.inventory_backlog
    }

    /// The number of different file names seen so far.
    pub fn interned_names(&self) -> (n: usize)
        requires
            self.wf(),
        ensures
            n == self.names().len(),
    {
        self.names.len()
    }

    /// The number of messages handed out and not yet reported consumed.
    pub fn pending_entries(&self) -> (n: usize)
        ensures
            n == self.pending(),
    {
        self.inventory_send_queue_pending
    }

    /// Whether the queue can count one more directory.
    pub fn can_queue(&self) -> (r: bool)
        ensures
            r == (self.queue().in_progress < usize::MAX),
    {
        self.dirs_queue.in_progress() < usize::MAX
    }

    /// Puts a directory on the input queue.
    fn send_dir(&mut self, message: DirectoryGatherMessage<D>, prio: u64)
        requires
            old(self).wf(),
            old(self).queue().in_progress < usize::MAX,
        ensures
            final(self).wf(),
            final(self).queue() == old(self).queue().send(message, prio),
            final(self).names() == old(self).names(),
            final(self).min_blocks() == old(self).min_blocks(),
            final(self).pool() == old(self).pool(),
            final(self).pending() == old(self).pending(),
    {
        self.dirs_queue.send(message, prio);
    }

    /// Counts a message for the output and hands it on.
    fn send_entry(&mut self, message: InventoryEntriesMessage) -> (sent: InventoryEntriesMessage)
        ensures
            sent == message,
            final(self).pending() == old(self).pending().wrapping_add(1),
            final(self).names() == old(self).names(),
            final(self).queue() == old(self).queue(),
            final(self).min_blocks() == old(self).min_blocks(),
            final(self).pool() == old(self).pool(),
            old(self).wf() ==> final(self).wf(),
    {
        self.inventory_send_queue_pending = self.inventory_send_queue_pending.wrapping_add(1);
        message
    }

    /// The consumer took one message off the output.
    pub fn entry_consumed(&mut self)
        ensures
            final(self).pending() == old(self).pending().wrapping_sub(1),
            final(self).names() == old(self).names(),
            final(self).queue() == old(self).queue(),
            final(self).min_blocks() == old(self).min_blocks(),
            final(self).pool() == old(self).pool(),
            old(self).wf() ==> final(self).wf(),
    {
        self.inventory_send_queue_pending = self.inventory_send_queue_pending.wrapping_sub(1);
    }

    /// Adds a directory to the processing queue of the inventory, at the
    /// lowest priority: what is being traversed finishes first.
    pub fn load_dir_recursive(&mut self, path: Arc<ObjectPath>)
        requires
            old(self).wf(),
            old(self).queue().in_progress < usize::MAX,
        ensures
            final(self).wf(),
            final(self).queue() == old(self).queue().send(
                DirectoryGatherMessage::TraverseDirectory { path, parent_dir: None },
                ROOT_PRIORITY,
            ),
            final(self).names() == old(self).names(),
            final(self).min_blocks() == old(self).min_blocks(),
            final(self).pool() == old(self).pool(),
            final(self).pending() == old(self).pending(),
    {
        self.send_dir(DirectoryGatherMessage::new_dir(path), ROOT_PRIORITY);
    }

    /// Decides what to do with one entry of the directory `path`, whose
    /// open handle is `dir`. `None` stands for an entry that could not be
    /// read. A directory is queued for traversal, with `dir` as the handle
    /// of its parent; for anything else the caller is asked to fetch the
    /// metadata.
    pub fn process_entry(
        &mut self,
        entry: Option<&DirEntry>,
        dir: Arc<D>,
        path: Arc<ObjectPath>,
    ) -> (r: Result<EntryAction, ErrorKind>)
        requires
            old(self).wf(),
            old(self).queue().in_progress < usize::MAX,
        ensures
            final(self).wf(),
            final(self).min_blocks() == old(self).min_blocks(),
            final(self).pool() == old(self).pool(),
            final(self).pending() == old(self).pending(),
            entry is None ==> {
                &&& r == Err::<EntryAction, ErrorKind>(ErrorKind::InvalidEntry)
                &&& final(self).names() == old(self).names()
                &&& final(self).queue() == old(self).queue()
            },
            entry matches Some(e) ==> if e.file_type == Some(SimpleType::Dir) {
                &&& r == Ok::<EntryAction, ErrorKind>(EntryAction::Queued)
                &&& final(self).names() == old(self).names().insert(e.name@)
                &&& exists|message: DirectoryGatherMessage<D>|
                    {
                        &&& message.path_names() == path.names().push(e.name@)
                        &&& message.parent() == Some(dir)
                        &&& final(self).queue() == #[trigger] old(self).queue().send(
                            message,
                            dir_priority(clamp_depth(path.names().len()), e.inode),
                        )
                    }
            } else {
                &&& r == Ok::<EntryAction, ErrorKind>(EntryAction::Stat)
                &&& final(self).names() == old(self).names()
                &&& final(self).queue() == old(self).queue()
            },
    {
        let entry = match entry {
            None => {
                return Err(ErrorKind::InvalidEntry);
            },
            Some(entry) => entry,
        };
        match entry.file_type {
            Some(SimpleType::Dir) => {
                let name = self.names.interning(entry.name.as_slice());
                let subdir = ObjectPath::subobject(path, name);
                proof {
                    path.lemma_names_nonempty();
                }
                // Directories are traversed depth first, in the order of
                // their inodes.
                let prio = directory_priority(subdir.depth(), entry.inode);
                let message = DirectoryGatherMessage::new_dir(subdir).with_parent(dir);
                let ghost queued = message;
                self.send_dir(message, prio);
                proof {
                    assert(queued.path_names() == path.names().push(entry.name@));
                    assert(prio == dir_priority(clamp_depth(path.names().len()), entry.inode));
                    assert(self.queue() == old(self).queue().send(queued, prio));
                }
                Ok(EntryAction::Queued)
            },
            _ => Ok(EntryAction::Stat),
        }
    }

    /// Decides what to do with an entry of the directory `path` once its
    /// metadata was fetched; `None` stands for a failed `stat`. An object
    /// with at least `min_blocks` blocks goes to the output; where no block
    /// count is known it counts as zero.
    pub fn process_metadata(
        &mut self,
        entry: &DirEntry,
        path: Arc<ObjectPath>,
        metadata: Option<EntryMetadata>,
    ) -> (r: Result<Option<InventoryEntriesMessage>, ErrorKind>)
        requires
            old(self).wf(),
        ensures
            final(self).wf(),
            final(self).min_blocks() == old(self).min_blocks(),
            final(self).pool() == old(self).pool(),
            final(self).queue() == old(self).queue(),
            metadata is None ==> {
                &&& r == Err::<Option<InventoryEntriesMessage>, ErrorKind>(ErrorKind::StatFailed)
                &&& final(self).names() == old(self).names()
                &&& final(self).pending() == old(self).pending()
            },
            metadata matches Some(m) ==> if m.blocks.unwrap_or(0) >= old(self).min_blocks() {
                &&& r matches Ok(Some(InventoryEntriesMessage::Entry(dev, key, object)))
                &&& dev == m.dev.unwrap_or(0)
                &&& key == (InventoryKey { blocks: m.blocks.unwrap_or(0), ino: entry.inode })
                &&& object.names() == path.names().push(entry.name@)
                &&& final(self).names() == old(self).names().insert(entry.name@)
                &&& final(self).pending() == old(self).pending().wrapping_add(1)
            } else {
                &&& r == Ok::<Option<InventoryEntriesMessage>, ErrorKind>(None)
                &&& final(self).names() == old(self).names()
                &&& final(self).pending() == old(self).pending()
            },
    {
        let metadata = match metadata {
            None => {
                return Err(ErrorKind::StatFailed);
            },
            Some(metadata) => metadata,
        };
        // Zero blocks when not available means it will be filtered out.
        let blocks = match metadata.blocks {
            Some(blocks) => blocks,
            None => 0,
        };
        if blocks >= self.min_blocks {
            let dev = match metadata.dev {
                Some(dev) => dev,
                None => 0,
            };
            let name = self.names.interning(entry.name.as_slice());
            let object = ObjectPath::subobject(path, name);
            let message = InventoryEntriesMessage::Entry(
                dev,
                InventoryKey::new(blocks, entry.inode),
                object,
            );
            Ok(Some(self.send_entry(message)))
        } else {
            Ok(None)
        }
    }

    /// Puts the directory in `guard` back on the queue, with the priority
    /// it had. A guard that holds no directory changes nothing.
    pub fn requeue(&mut self, guard: &ReceiveGuard<DirectoryGatherMessage<D>>)
        requires
            old(self).wf(),
            old(self).queue().in_progress < usize::MAX,
        ensures
            final(self).wf(),
            final(self).names() == old(self).names(),
            final(self).min_blocks() == old(self).min_blocks(),
            final(self).pool() == old(self).pool(),
            final(self).pending() == old(self).pending(),
            match guard.entry_spec() {
                QueueEntry::Item(message, prio) => final(self).queue() == old(self).queue().send(
                    message,
                    prio,
                ),
                _ => final(self).queue() == old(self).queue(),
            },
    {
        match guard.entry() {
            QueueEntry::Item(DirectoryGatherMessage::TraverseDirectory { path, parent_dir }, prio) => {
                let again = DirectoryGatherMessage::TraverseDirectory {
                    path: path.clone(),
                    parent_dir: match parent_dir {
                        Some(parent) => Some(parent.clone()),
                        None => None,
                    },
                };
                self.send_dir(again, *prio);
            },
            _ => {},
        }
    }

    /// Decides what follows when the directory in `guard` could not be
    /// opened. Where the process ran out of file descriptors, the
    /// directory goes back on the queue to be tried again; any other
    /// failure is reported for `path`.
    pub fn open_failed(
        &mut self,
        guard: &ReceiveGuard<DirectoryGatherMessage<D>>,
        path: Arc<ObjectPath>,
        exhausted: bool,
    ) -> (report: Option<InventoryEntriesMessage>)
        requires
            old(self).wf(),
            old(self).queue().in_progress < usize::MAX,
        ensures
            final(self).wf(),
            final(self).names() == old(self).names(),
            final(self).min_blocks() == old(self).min_blocks(),
            final(self).pool() == old(self).pool(),
            exhausted && guard.entry_spec() is Item ==> {
                &&& report is None
                &&& final(self).pending() == old(self).pending()
                &&& guard.entry_spec() matches QueueEntry::Item(message, prio)
                &&& final(self).queue() == old(self).queue().send(message, prio)
            },
            !(exhausted && guard.entry_spec() is Item) ==> {
                &&& report == Some(InventoryEntriesMessage::Error(path, ErrorKind::OpenFailed))
                &&& final(self).pending() == old(self).pending().wrapping_add(1)
                &&& final(self).queue() == old(self).queue()
            },
    {
        let retry = exhausted && match guard.entry() {
            QueueEntry::Item(_, _) => true,
            _ => false,
        };
        if retry {
            self.requeue(guard);
            None
        } else {
            Some(self.send_error(path, ErrorKind::OpenFailed))
        }
    }

    /// Counts an error for the output and makes its message.
    pub fn send_error(&mut self, path: Arc<ObjectPath>, kind: ErrorKind) -> (message:
        InventoryEntriesMessage)
        ensures
            message == InventoryEntriesMessage::Error(path, kind),
            final(self).pending() == old(self).pending().wrapping_add(1),
            final(self).names() == old(self).names(),
            final(self).queue() == old(self).queue(),
            final(self).min_blocks() == old(self).min_blocks(),
            final(self).pool() == old(self).pool(),
            old(self).wf() ==> final(self).wf(),
    {
        self.send_entry(InventoryEntriesMessage::Error(path, kind))
    }

    /// Takes the next entry off the queue of directories, if there is one.
    /// The guard goes back through `finish` when the work is done.
    pub fn next_work(&mut self) -> (r: Option<ReceiveGuard<DirectoryGatherMessage<D>>>)
        requires
            old(self).wf(),
        ensures
            final(self).wf(),
            final(self).names() == old(self).names(),
            final(self).min_blocks() == old(self).min_blocks(),
            final(self).pool() == old(self).pool(),
            final(self).pending() == old(self).pending(),
            old(self).queue().entries.len() == 0 ==> r is None && final(self).queue() == old(
                self,
            ).queue(),
            old(self).queue().entries.len() > 0 ==> {
                &&& r matches Some(guard)
                &&& guard.entry_spec() == old(self).queue().next()
                &&& guard.counted() == (old(self).queue().next() is Item)
                &&& final(self).queue() == old(self).queue().recv()
            },
    {
        self.dirs_queue.try_recv()
    }

    /// Decides what a worker does with the entry in `guard`. A directory
    /// that comes with the handle of its parent is opened by name, relative
    /// to that handle; one without is opened by its full path. The `Drained`
    /// marker makes the worker emit `Done`.
    pub fn worker_step(&mut self, guard: &ReceiveGuard<DirectoryGatherMessage<D>>) -> (step:
        WorkerStep<D>)
        ensures
            old(self).wf() ==> final(self).wf(),
            final(self).names() == old(self).names(),
            final(self).queue() == old(self).queue(),
            final(self).min_blocks() == old(self).min_blocks(),
            final(self).pool() == old(self).pool(),
            final(self).pending() == if guard.entry_spec() is Drained {
                old(self).pending().wrapping_add(1)
            } else {
                old(self).pending()
            },
            match guard.entry_spec() {
                QueueEntry::Item(message, _) => match message.parent() {
                    Some(handle) => {
                        &&& step matches WorkerStep::OpenAt { parent, path }
                        &&& parent == handle
                        &&& path.names() == message.path_names()
                    },
                    None => {
                        &&& step matches WorkerStep::Open { path, full_path }
                        &&& path.names() == message.path_names()
                        &&& full_path@ == path_bytes(message.path_names())
                    },
                },
                QueueEntry::Drained => step == WorkerStep::<D>::Emit(InventoryEntriesMessage::Done),
                QueueEntry::Taken => step is Nothing,
            },
    {
        match guard.entry() {
            QueueEntry::Item(DirectoryGatherMessage::TraverseDirectory { path, parent_dir }, _) => {
                match parent_dir {
                    Some(parent) => WorkerStep::OpenAt {
                        parent: parent.clone(),
                        path: path.clone(),
                    },
                    None => {
                        let full_path = path.to_pathbuf();
                        WorkerStep::Open { path: path.clone(), full_path }
                    },
                }
            },
            QueueEntry::Drained => WorkerStep::Emit(self.send_entry(InventoryEntriesMessage::Done)),
            QueueEntry::Taken => WorkerStep::Nothing,
        }
    }

    /// Gives the guard of a finished piece of work back to the queue. When
    /// it was the last one out and nothing is queued, the queue puts the
    /// `Drained` marker up.
    pub fn finish(&mut self, guard: ReceiveGuard<DirectoryGatherMessage<D>>)
        requires
            old(self).wf(),
        ensures
            final(self).wf(),
            final(self).queue() == old(self).queue().release(guard.counted()),
            final(self).names() == old(self).names(),
            final(self).min_blocks() == old(self).min_blocks(),
            final(self).pool() == old(self).pool(),
            final(self).pending() == old(self).pending(),
    {
        self.dirs_queue.release(guard);
    }
}

} // verus!
