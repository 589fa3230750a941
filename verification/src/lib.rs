//! A minimal flat filesystem held in a single volume.
//!
//! The volume is a byte image with four consecutive regions: a superblock,
//! a fixed table of inode records, an allocation bitmap with one bit per
//! data block, and the data region itself.  This crate holds the verified
//! core: layout arithmetic, the record codecs, the descriptor directory,
//! the first-fit block allocator, content transfer, and the volume-level
//! operations `format`, `create`, `cat` and `list_used`.  Reading the
//! volume image from disk and writing it back is left to the caller.
pub mod allocator;
pub mod codec;
pub mod directory;
pub mod errors;
pub mod layout;
pub mod transfer;
pub mod types;
pub mod volume;
