//! Containers that can be shared between threads.

mod counter;
pub mod lock;
pub mod shard;
pub mod slotheap;
pub mod slotmap;

pub use lock::MappedReadGuard;
pub use lock::MappedWriteGuard;
pub use slotheap::PeekKeyMut;
pub use slotheap::PeekMut;
pub use slotheap::RefKeyMut;
pub use slotheap::RefMut;
pub use slotheap::SlotHeap;
pub use slotmap::LazyInsert;
pub use slotmap::SlotMap;
