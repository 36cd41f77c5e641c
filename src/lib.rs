//! An allocator façade that erases every byte it handed out before the memory goes back.
//!
//! Each allocation is prefixed by a small metadata block holding the true length of the
//! allocation and a CRC-64 of that length. On release the block is read back and checked,
//! and the whole allocation (metadata and payload) is overwritten with zeros.
pub mod allocator;
pub mod metadata;

pub use allocator::{erase_slice, Failure, MAProper, Region};
pub use metadata::Metadata;
