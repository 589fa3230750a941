use vstd::prelude::*;

verus! {

/// Width in bytes of one encoded superblock record: six `u32` fields.
pub const SUPERBLOCK_BYTES: usize = 24;

/// Width in bytes of the zero-padded name buffer inside an inode record.
pub const NAME_BYTES: usize = 32;

/// Width in bytes of one encoded inode record: a one-byte used flag, the
/// 32-byte name buffer, and three `u32` fields.
pub const INODE_BYTES: usize = 45;

/// The volume header: capacities fixed at format time and two usage counters.
#[derive(Clone, Copy, Debug, PartialEq, Eq, Structural)]
pub struct Superblock {
    /// Size of the data region in bytes; always `block_size * total_blocks`.
    pub total_size: u32,
    /// Size of one data block in bytes.
    pub block_size: u32,
    /// Number of blocks in the data region.
    pub total_blocks: u32,
    /// Number of slots in the inode table.
    pub total_inodes: u32,
    /// Number of blocks handed out so far; blocks are never reclaimed.
    pub used_blocks: u32,
    /// Number of inode slots handed out so far; slots are never reclaimed.
    pub used_inodes: u32,
}

/// One descriptor record of the inode table.
#[derive(Clone, Copy, Debug)]
pub struct Inode {
    /// 1 when the slot describes a file, 0 when the slot is free.
    pub used: u8,
    /// The file name, zero-padded; at most `NAME_BYTES - 1` name bytes.
    pub name: [u8; 32],
    /// Length of the file content in bytes.
    pub size: u32,
    /// Index of the first data block of the file.
    pub start_block: u32,
    /// Number of data blocks the file occupies.
    pub block_count: u32,
}

/// The allocation bitmap: one bit per data block, 1 meaning allocated.
#[derive(Debug)]
pub struct Bitmap {
    pub bits: Vec<u8>,
}

/// Number of bytes the bitmap needs for `total_blocks` bits.
pub open spec fn spec_bitmap_len(total_blocks: int) -> int {
    (total_blocks + 7) / 8
}

/// Whether bit `i` of the bitmap bytes is set.
pub open spec fn bit_is_set(bits: Seq<u8>, i: int) -> bool
    recommends
        0 <= i,
        i / 8 < bits.len(),
{
    bits[i / 8] & (1u8 << ((i % 8) as u8)) != 0
}

/// Number of clear bits among bits `0 .. n`.
pub open spec fn count_free(bits: Seq<u8>, n: int) -> int
    decreases n,
{
    if n <= 0 {
        0
    } else {
        count_free(bits, n - 1) + if bit_is_set(bits, n - 1) {
            0int
        } else {
            1int
        }
    }
}

/// The bitmap allocates exactly the blocks below `used`: bit `j` is set
/// if and only if `j < used`.  With no delete path, every volume the core
/// produces keeps the bitmap in this shape.
pub open spec fn bitmap_is_prefix(bits: Seq<u8>, used: int, total: int) -> bool {
    forall|j: int| 0 <= j < total ==> (bit_is_set(bits, j) <==> j < used)
}

/// Number of blocks a content of `len` bytes occupies: at least one block,
/// else the division by `block_size` rounded up.
pub open spec fn spec_blocks_needed(len: int, block_size: int) -> int
    recommends
        block_size >= 1,
{
    if len == 0 {
        1
    } else {
        (len + block_size - 1) / block_size
    }
}

impl Superblock {
    /// The header invariants: blocks exist, the declared total size is the
    /// exact product of the capacities, and the counters stay within them.
    pub open spec fn wf(self) -> bool {
        &&& self.block_size >= 1
        &&& self.total_size == self.block_size * self.total_blocks
        &&& self.used_blocks <= self.total_blocks
        &&& self.used_inodes <= self.total_inodes
    }
}

impl Inode {
    /// Whether the record describes a file.
    pub open spec fn is_used(self) -> bool {
        self.used == 1
    }

    /// The flag byte holds nothing but 0 or 1.
    pub open spec fn flag_valid(self) -> bool {
        self.used == 0 || self.used == 1
    }

    /// A used record accounts for its content exactly: the block count is
    /// the rounded-up block number of the size, and the contiguous run
    /// starting at `start_block` stays within the data region.
    pub open spec fn accounting_ok(self, block_size: int, total_blocks: int) -> bool {
        self.is_used() ==> {
            &&& self.block_count == spec_blocks_needed(self.size as int, block_size)
            &&& self.start_block + self.block_count <= total_blocks
        }
    }
}

/// The rounded-up block count is at least 1, covers the whole content, and
/// wastes less than one block: `(n - 1) * block_size < max(len, 1)`.
pub proof fn lemma_blocks_needed_bounds(len: int, block_size: int)
    requires
        block_size >= 1,
        len >= 0,
    ensures
        spec_blocks_needed(len, block_size) >= 1,
        len <= spec_blocks_needed(len, block_size) * block_size,
        len > 0 ==> (spec_blocks_needed(len, block_size) - 1) * block_size < len,
{
    if len == 0 {
    } else {
        let n = (len + block_size - 1) / block_size;
        assert(n * block_size >= len && (n - 1) * block_size < len && n >= 1)
            by (nonlinear_arith)
            requires
                block_size >= 1,
                len >= 1,
                n == (len + block_size - 1) / block_size,
        ;
    }
}

/// Clear bits do not get fewer as the scanned range grows.
pub proof fn lemma_count_free_monotonic(bits: Seq<u8>, m: int, n: int)
    requires
        m <= n,
    ensures
        count_free(bits, m) <= count_free(bits, n),
    decreases n - m,
{
    if m < n {
        lemma_count_free_monotonic(bits, m, n - 1);
    }
}

/// On a prefix-shaped bitmap the clear bits below `n` are exactly those of
/// `used .. n`.
pub proof fn lemma_count_free_prefix(bits: Seq<u8>, used: int, total: int, n: int)
    requires
        bitmap_is_prefix(bits, used, total),
        0 <= used,
        0 <= n <= total,
    ensures
        count_free(bits, n) == if n <= used {
            0int
        } else {
            n - used
        },
    decreases n,
{
    if n > 0 {
        lemma_count_free_prefix(bits, used, total, n - 1);
    }
}

} // verus!
