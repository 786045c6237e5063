//! The core of a daemon that deletes very large directory trees.
//!
//! The daemon first builds a compact inventory of the largest files of a
//! tree and then deletes in an order that frees the most space per unit of
//! work. This library holds the rules of that first phase: the pool of
//! interned file names, the shared path tree, the priority queue that
//! coordinates the workers and reports when they have run dry, the decisions
//! of the directory gatherer, and the inventory that groups what was
//! gathered by device and sorts it for deletion.
pub mod comparisons;
pub mod internednames;
pub mod inventory;
pub mod inventory_gatherer;
pub mod objectlist;
pub mod objectpath;
pub mod order;
pub mod priority_queue;
pub mod quiescence;
pub mod rmrfd;
pub mod sorted;

pub use internednames::{InternedName, InternedNames};
pub use inventory::{DeviceId, Inventory};
pub use inventory_gatherer::{
    DirEntry, DirectoryGatherMessage, EntryAction, EntryMetadata, ErrorKind, InventoryEntriesMessage,
    InventoryGatherer, InventoryKey, SimpleType, WorkEvent, WorkState, WorkerStep,
};
pub use objectlist::ObjectList;
pub use objectpath::ObjectPath;
pub use order::Order;
pub use priority_queue::{PriorityQueue, QueueEntry, ReceiveGuard};
pub use rmrfd::{Rmrfd, RmrfdBuilder, RmrfdError};
