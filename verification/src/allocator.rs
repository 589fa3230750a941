use crate::errors::FsError;
use crate::types::{
    bit_is_set, bitmap_is_prefix, count_free, spec_bitmap_len, spec_blocks_needed, Bitmap,
    Superblock,
};
use vstd::prelude::*;
use vstd::slice::slice_to_vec;

verus! {

/// Setting one bit of a byte leaves every other bit of it as it was.
proof fn lemma_or_mask_bit(b: u8, k: u8, m: u8)
    by (bit_vector)
    requires
        k < 8,
        m < 8,
    ensures
        ((b | (1u8 << k)) & (1u8 << m) != 0) == (m == k || (b & (1u8 << m) != 0)),
{
}

/// Whether bit `i` of the bitmap bytes is set.
pub fn bitmap_get(bits: &Vec<u8>, i: u32) -> (b: bool)
    requires
        i as int / 8 < bits@.len(),
    ensures
        b == bit_is_set(bits@, i as int),
{
    let byte: u8 = bits[(i / 8) as usize];
    let mask: u8 = 1u8 << ((i % 8) as u8);
    (byte & mask) != 0
}

/// Sets bit `i` of the bitmap bytes; every other bit keeps its value.
pub fn bitmap_set(bits: &mut Vec<u8>, i: u32)
    requires
        i as int / 8 < old(bits)@.len(),
    ensures
        final(bits)@.len() == old(bits)@.len(),
        forall|j: int|
            0 <= j && j / 8 < final(bits)@.len() ==> bit_is_set(final(bits)@, j) == (j == i as int
                || bit_is_set(old(bits)@, j)),
{
    let byte_idx = (i / 8) as usize;
    let mask: u8 = 1u8 << ((i % 8) as u8);
    let updated: u8 = bits[byte_idx] | mask;
    bits[byte_idx] = updated;
    proof {
        assert forall|j: int| 0 <= j && j / 8 < bits@.len() implies bit_is_set(bits@, j) == (j
            == i as int || bit_is_set(old(bits)@, j)) by {
            if j / 8 == i as int / 8 {
                lemma_or_mask_bit(old(bits)@[j / 8], (i as int % 8) as u8, (j % 8) as u8);
                if (j % 8) as u8 == (i as int % 8) as u8 && j / 8 == i as int / 8 {
                    assert(j == i as int);
                }
            }
        }
    }
}

/// Computes how many blocks a content of `content_len` bytes needs.
pub fn blocks_needed(block_size: u32, content_len: usize) -> (n: u64)
    requires
        block_size >= 1,
        content_len <= u32::MAX,
    ensures
        n == spec_blocks_needed(content_len as int, block_size as int),
{
    if content_len == 0 {
        1
    } else {
        (content_len as u64 + block_size as u64 - 1) / block_size as u64
    }
}

/// What a successful allocation guarantees: `blocks` are `n` strictly
/// ascending block indices, all clear in the old bitmap, chosen first-fit
/// (every clear bit below the last selected one is selected), and `updated`
/// is the old bitmap with exactly those bits set in addition.
pub open spec fn alloc_ok(
    old_bits: Seq<u8>,
    tb: int,
    n: int,
    blocks: Seq<u32>,
    updated: Seq<u8>,
) -> bool {
    &&& count_free(old_bits, tb) >= n
    &&& blocks.len() == n
    &&& forall|i: int|
        0 <= i < n ==> blocks[i] < tb && !bit_is_set(old_bits, #[trigger] blocks[i] as int)
    &&& forall|i: int, j: int| 0 <= i < j < n ==> blocks[i] < blocks[j]
    &&& forall|b: int|
        0 <= b < tb && !bit_is_set(old_bits, b) && b < blocks[n - 1] as int ==> exists|i: int|
            0 <= i < n && blocks[i] == b
    &&& updated.len() == old_bits.len()
    &&& forall|b: int|
        0 <= b < tb ==> (bit_is_set(updated, b) <==> (bit_is_set(old_bits, b) || exists|i: int|
            0 <= i < n && blocks[i] == b))
}

/// The first-fit block allocator.
///
/// Computes how many blocks the content needs, scans the bitmap from block 0
/// upward, and collects the clear bits in order, setting each in a private
/// copy of the bitmap.  Returns the ordered list of selected block indices
/// together with the updated bitmap; the caller persists both.  Fails with
/// `OutOfSpace` exactly when the bitmap holds fewer clear bits than needed.
/// Nothing is ever reclaimed: no operation clears a bit.
pub fn find_free_block(bitmap: &Bitmap, superblock: &Superblock, content_len: usize) -> (r: Result<
    (Vec<u32>, Bitmap),
    FsError,
>)
    requires
        superblock.block_size >= 1,
        bitmap.bits@.len() == spec_bitmap_len(superblock.total_blocks as int),
        content_len <= u32::MAX,
    ensures
        ({
            let tb = superblock.total_blocks as int;
            let n = spec_blocks_needed(content_len as int, superblock.block_size as int);
            match r {
                Err(e) => e == FsError::OutOfSpace && count_free(bitmap.bits@, tb) < n,
                Ok((blocks, updated)) => alloc_ok(bitmap.bits@, tb, n, blocks@, updated.bits@),
            }
        }),
{
    let total_blocks = superblock.total_blocks;
    let needed = blocks_needed(superblock.block_size, content_len);
    proof {
        crate::types::lemma_blocks_needed_bounds(content_len as int, superblock.block_size as int);
    }
    let mut work: Vec<u8> = slice_to_vec(bitmap.bits.as_slice());
    let mut allocated: Vec<u32> = Vec::new();
    let ghost orig = bitmap.bits@;
    let ghost n = spec_blocks_needed(content_len as int, superblock.block_size as int);
    let mut block: u32 = 0;
    while block < total_blocks && (allocated.len() as u64) < needed
        invariant
            n == needed,
            needed >= 1,
            total_blocks == superblock.total_blocks,
            orig.len() == spec_bitmap_len(total_blocks as int),
            work@.len() == orig.len(),
            block <= total_blocks,
            allocated@.len() <= n,
            count_free(orig, block as int) == allocated@.len(),
            forall|i: int|
                0 <= i < allocated@.len() ==> allocated@[i] < block && !bit_is_set(
                    orig,
                    #[trigger] allocated@[i] as int,
                ),
            forall|i: int, j: int|
                0 <= i < j < allocated@.len() ==> allocated@[i] < allocated@[j],
            forall|b: int|
                0 <= b < block as int && !bit_is_set(orig, b) ==> exists|i: int|
                    0 <= i < allocated@.len() && allocated@[i] == b,
            forall|b: int|
                0 <= b < total_blocks as int ==> (bit_is_set(work@, b) <==> (bit_is_set(orig, b)
                    || exists|i: int| 0 <= i < allocated@.len() && allocated@[i] == b)),
        decreases total_blocks - block,
    {
        proof {
            assert(block as int / 8 <= (total_blocks as int - 1) / 8);
            assert((total_blocks as int - 1) / 8 < (total_blocks as int + 7) / 8);
        }
        let free_here = !bitmap_get(&work, block);
        let ghost pre_allocated = allocated@;
        if free_here {
            proof {
                assert(!bit_is_set(orig, block as int));
            }
            bitmap_set(&mut work, block);
            allocated.push(block);
            proof {
                assert forall|b: int|
                    0 <= b < total_blocks as int implies (bit_is_set(work@, b) <==> (bit_is_set(
                    orig,
                    b,
                ) || exists|i: int| 0 <= i < allocated@.len() && allocated@[i] == b)) by {
                    if b == block as int {
                        assert(allocated@[allocated@.len() - 1] == b);
                    } else {
                        assert((exists|i: int| 0 <= i < pre_allocated.len() && pre_allocated[i]
                            == b) <==> (exists|i: int|
                            0 <= i < allocated@.len() && allocated@[i] == b)) by {
                            if exists|i: int| 0 <= i < pre_allocated.len() && pre_allocated[i]
                                == b {
                                let i = choose|i: int|
                                    0 <= i < pre_allocated.len() && pre_allocated[i] == b;
                                assert(allocated@[i] == b);
                            }
                            if exists|i: int| 0 <= i < allocated@.len() && allocated@[i] == b {
                                let i = choose|i: int|
                                    0 <= i < allocated@.len() && allocated@[i] == b;
                                assert(i < pre_allocated.len() && pre_allocated[i] == b);
                            }
                        }
                    }
                }
            }
        } else {
            proof {
                assert(bit_is_set(work@, block as int));
                assert(bit_is_set(orig, block as int)) by {
                    if !bit_is_set(orig, block as int) {
                        let i = choose|i: int|
                            0 <= i < allocated@.len() && allocated@[i] == block as int;
                        assert(allocated@[i] < block);
                    }
                }
            }
        }
        block = block + 1;
    }
    if (allocated.len() as u64) < needed {
        proof {
            crate::types::lemma_count_free_monotonic(orig, block as int, total_blocks as int);
            assert(block == total_blocks);
        }
        return Err(FsError::OutOfSpace);
    }
    proof {
        crate::types::lemma_count_free_monotonic(orig, block as int, total_blocks as int);
        assert(allocated@.len() == n);
        assert forall|b: int|
            0 <= b < superblock.total_blocks as int && !bit_is_set(orig, b) && b < allocated@[n
            - 1] as int implies exists|i: int| 0 <= i < n && allocated@[i] == b by {
            assert(allocated@[n - 1] < block);
        }
        assert(alloc_ok(orig, superblock.total_blocks as int, n, allocated@, work@));
    }
    Ok((allocated, Bitmap { bits: work }))
}

/// On a prefix-shaped bitmap the first-fit scan selects exactly the
/// contiguous run of blocks `used .. used + n`: fragmentation cannot arise
/// while no delete path exists.
pub proof fn lemma_first_fit_on_prefix_is_contiguous(
    bits: Seq<u8>,
    blocks: Seq<u32>,
    used: int,
    total: int,
)
    requires
        bitmap_is_prefix(bits, used, total),
        0 <= used <= total,
        blocks.len() >= 1,
        forall|i: int|
            0 <= i < blocks.len() ==> blocks[i] < total && !bit_is_set(
                bits,
                #[trigger] blocks[i] as int,
            ),
        forall|i: int, j: int| 0 <= i < j < blocks.len() ==> blocks[i] < blocks[j],
        forall|b: int|
            0 <= b < total && !bit_is_set(bits, b) && b < blocks[blocks.len() - 1] as int
                ==> exists|i: int| 0 <= i < blocks.len() && blocks[i] == b,
    ensures
        forall|i: int| 0 <= i < blocks.len() ==> blocks[i] == used + i,
{
    assert forall|i: int| 0 <= i < blocks.len() implies blocks[i] == used + i by {
        lemma_first_fit_prefix_aux(bits, blocks, used, total, i);
    }
}

proof fn lemma_first_fit_prefix_aux(bits: Seq<u8>, blocks: Seq<u32>, used: int, total: int, i: int)
    requires
        bitmap_is_prefix(bits, used, total),
        0 <= used <= total,
        blocks.len() >= 1,
        0 <= i < blocks.len(),
        forall|k: int|
            0 <= k < blocks.len() ==> blocks[k] < total && !bit_is_set(
                bits,
                #[trigger] blocks[k] as int,
            ),
        forall|k: int, j: int| 0 <= k < j < blocks.len() ==> blocks[k] < blocks[j],
        forall|b: int|
            0 <= b < total && !bit_is_set(bits, b) && b < blocks[blocks.len() - 1] as int
                ==> exists|k: int| 0 <= k < blocks.len() && blocks[k] == b,
    ensures
        blocks[i] == used + i,
    decreases i,
{
    // A selected block is free, so it lies at or above `used`.
    assert(blocks[i] as int >= used);
    if i == 0 {
        if blocks[0] as int > used {
            // `used` itself is free and below the last selected block, so the
            // scan must have selected it; but every selected block is at
            // least `blocks[0]`, above `used`.
            assert(used < blocks[blocks.len() - 1] as int) by {
                if blocks.len() > 1 {
                    assert(blocks[0] < blocks[blocks.len() - 1]);
                }
            }
            assert(0 <= used < total);
            assert(!bit_is_set(bits, used));
            assert(exists|k: int| 0 <= k < blocks.len() && blocks[k] == used);
            let k = choose|k: int| 0 <= k < blocks.len() && blocks[k] == used;
            if k > 0 {
                assert(blocks[0] < blocks[k]);
            }
            assert(false);
        }
    } else {
        lemma_first_fit_prefix_aux(bits, blocks, used, total, i - 1);
        assert(blocks[i - 1] < blocks[i]);
        if blocks[i] as int > used + i {
            // The block `used + i` is free, sits between two neighbouring
            // selections, and so must itself have been selected - yet the
            // scan is strictly ascending.  Contradiction.
            let b = used + i;
            assert(b < blocks[blocks.len() - 1] as int) by {
                if i < blocks.len() - 1 {
                    assert(blocks[i] < blocks[blocks.len() - 1]);
                }
            }
            assert(0 <= b < total);
            assert(!bit_is_set(bits, b));
            assert(exists|k: int| 0 <= k < blocks.len() && blocks[k] == b);
            let k = choose|k: int| 0 <= k < blocks.len() && blocks[k] == b;
            if k <= i - 1 {
                if k < i - 1 {
                    assert(blocks[k] < blocks[i - 1]);
                }
                assert(false);
            } else {
                if k > i {
                    assert(blocks[i] < blocks[k]);
                }
                assert(false);
            }
        }
    }
}

} // verus!
