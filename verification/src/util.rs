//! Small helpers that the containers share.

pub mod okok;
pub mod shard;
pub mod swap;

pub use okok::Okok;
pub use shard::default_num_shards;
pub use swap::swap_remove_unchecked;
pub use swap::swap_unchecked;
