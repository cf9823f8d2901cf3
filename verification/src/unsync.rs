//! Containers that assume exclusive access.

pub mod guards;
pub mod iter;
pub mod order;
mod sift;
pub mod slotheap;
pub mod slotmap;
pub mod state;

pub use guards::PeekKeyMut;
pub use guards::PeekMut;
pub use guards::RefKeyMut;
pub use guards::RefMut;
pub use iter::Drain;
pub use iter::Ids;
pub use iter::IntoIds;
pub use iter::IntoIter;
pub use iter::IntoValues;
pub use iter::Iter;
pub use iter::IterMut;
pub use iter::Values;
pub use iter::ValuesMut;
pub use slotheap::SlotHeap;
pub use slotmap::SlotMap;
pub use state::SlotState;
