use crate::types::{spec_bitmap_len, INODE_BYTES, SUPERBLOCK_BYTES};
use vstd::prelude::*;

verus! {

/// Byte offset of the inode table: right after the superblock record.
pub open spec fn spec_table_offset() -> int {
    SUPERBLOCK_BYTES as int
}

/// Byte offset of the bitmap: after the table of `total_inodes` records.
pub open spec fn spec_bitmap_offset(total_inodes: int) -> int {
    spec_table_offset() + total_inodes * (INODE_BYTES as int)
}

/// Byte offset of the data region: after the bitmap.
pub open spec fn spec_data_offset(total_inodes: int, total_blocks: int) -> int {
    spec_bitmap_offset(total_inodes) + spec_bitmap_len(total_blocks)
}

/// Total byte length of a volume image.
pub open spec fn spec_volume_len(total_inodes: int, total_blocks: int, block_size: int) -> int {
    spec_data_offset(total_inodes, total_blocks) + total_blocks * block_size
}

/// Byte offset of the inode table within the volume image.
pub fn table_offset() -> (r: u64)
    ensures
        r == spec_table_offset(),
{
    SUPERBLOCK_BYTES as u64
}

/// Byte offset of the bitmap within the volume image.
pub fn bitmap_offset(total_inodes: u32) -> (r: u64)
    ensures
        r == spec_bitmap_offset(total_inodes as int),
{
    proof {
        assert(total_inodes as u64 * (INODE_BYTES as u64) == total_inodes as u64 * 45);
    }
    SUPERBLOCK_BYTES as u64 + total_inodes as u64 * INODE_BYTES as u64
}

/// Byte length of the bitmap: one bit per block, rounded up to whole bytes.
pub fn bitmap_len(total_blocks: u32) -> (r: u64)
    ensures
        r == spec_bitmap_len(total_blocks as int),
{
    (total_blocks as u64 + 7) / 8
}

/// Byte offset of the data region within the volume image.
pub fn data_offset(total_inodes: u32, total_blocks: u32) -> (r: u64)
    ensures
        r == spec_data_offset(total_inodes as int, total_blocks as int),
{
    bitmap_offset(total_inodes) + bitmap_len(total_blocks)
}

/// Total byte length of a volume image with the given capacities.
pub fn volume_len(total_inodes: u32, total_blocks: u32, block_size: u32) -> (r: u64)
    requires
        total_blocks as int * block_size as int <= u32::MAX,
    ensures
        r == spec_volume_len(total_inodes as int, total_blocks as int, block_size as int),
{
    data_offset(total_inodes, total_blocks) + total_blocks as u64 * block_size as u64
}

} // verus!
