use crate::types::{spec_blocks_needed, Inode};
use vstd::prelude::*;

verus! {

/// Writes the content into the allocated blocks.
///
/// The reconstruction rule for reads addresses a file as one contiguous run
/// of blocks starting at its first block, so this writer accepts only a
/// contiguous ascending allocation - the volume operations refuse a
/// fragmented one before writing anything.  Under that rule the per-block
/// chunks concatenate to a single contiguous byte range of the data region,
/// which this writes in one pass.  Every byte outside the range keeps its
/// value: the final block's tail beyond the content stays untouched.
pub fn write_content_to_blocks(
    data: &mut Vec<u8>,
    blocks: &Vec<u32>,
    block_size: u32,
    content: &[u8],
)
    requires
        block_size >= 1,
        blocks@.len() >= 1,
        forall|i: int| 0 <= i < blocks@.len() ==> #[trigger] blocks@[i] == blocks@[0] + i,
        content@.len() <= blocks@.len() * block_size as int,
        (blocks@[0] + blocks@.len()) * block_size as int <= old(data)@.len(),
    ensures
        final(data)@.len() == old(data)@.len(),
        forall|k: int|
            0 <= k < content@.len() ==> final(data)@[blocks@[0] * block_size as int + k]
                == content@[k],
        forall|p: int|
            0 <= p < old(data)@.len() && !(blocks@[0] * block_size as int <= p < blocks@[0]
                * block_size as int + content@.len()) ==> final(data)@[p] == old(data)@[p],
{
    let ghost base_g = blocks@[0] * block_size as int;
    proof {
        let data_len = old(data)@.len() as int;
        assert(base_g + content@.len() <= data_len) by (nonlinear_arith)
            requires
                base_g == blocks@[0] * block_size as int,
                content@.len() <= blocks@.len() * block_size as int,
                (blocks@[0] + blocks@.len()) * block_size as int <= data_len,
        ;
    }
    let data_len: usize = data.len();
    let first: u32 = blocks[0];
    proof {
        assert(base_g <= data_len);
    }
    let base: usize = first as usize * block_size as usize;
    let mut k: usize = 0;
    while k < content.len()
        invariant
            base == base_g,
            base_g + content@.len() <= data@.len(),
            data@.len() <= usize::MAX,
            data@.len() == old(data)@.len(),
            k <= content@.len(),
            forall|j: int| 0 <= j < k ==> data@[base_g + j] == content@[j],
            forall|p: int|
                0 <= p < data@.len() && !(base_g <= p < base_g + k) ==> data@[p] == old(
                    data,
                )@[p],
        decreases content@.len() - k,
    {
        let b = content[k];
        data[base + k] = b;
        k = k + 1;
    }
}

/// Reassembles a file's content under the contiguous-run reconstruction
/// rule: `block_count` blocks are read starting at `start_block`, walking
/// block by block, and the final block contributes only the bytes the
/// recorded size still asks for.
pub fn read_file_content(data: &Vec<u8>, inode: &Inode, block_size: u32) -> (r: Vec<u8>)
    requires
        block_size >= 1,
        inode.is_used(),
        inode.block_count == spec_blocks_needed(inode.size as int, block_size as int),
        (inode.start_block + inode.block_count) * block_size as int <= data@.len(),
    ensures
        r@ == data@.subrange(
            inode.start_block * block_size as int,
            inode.start_block * block_size as int + inode.size as int,
        ),
{
    let ghost base_g = inode.start_block * block_size as int;
    let size = inode.size;
    let count = inode.block_count;
    proof {
        crate::types::lemma_blocks_needed_bounds(size as int, block_size as int);
        assert(base_g + count * block_size as int <= data@.len()) by (nonlinear_arith)
            requires
                base_g == inode.start_block * block_size as int,
                (inode.start_block + count) * block_size as int <= data@.len(),
        ;
        assert(base_g + size <= data@.len());
    }
    let data_len: usize = data.len();
    proof {
        assert(base_g <= data_len);
    }
    let base: usize = inode.start_block as usize * block_size as usize;
    let mut out: Vec<u8> = Vec::new();
    let mut block: u32 = 0;
    while block < count
        invariant
            block_size >= 1,
            base == base_g,
            size == inode.size,
            count == inode.block_count,
            count == spec_blocks_needed(size as int, block_size as int),
            base_g + count * block_size as int <= data@.len(),
            base_g + size <= data@.len(),
            data@.len() <= usize::MAX,
            size <= count * block_size as int,
            size > 0 ==> (count - 1) * (block_size as int) < size,
            (size == 0) ==> count == 1,
            block <= count,
            out@.len() == vstd::math::min(block as int * block_size as int, size as int),
            forall|j: int| 0 <= j < out@.len() ==> out@[j] == data@[base_g + j],
        decreases count - block,
    {
        proof {
            assert(block as int * block_size as int <= (count - 1) * block_size as int)
                by (nonlinear_arith)
                requires
                    block < count,
                    block_size >= 1,
            ;
        }
        // The content bytes already gathered end exactly where this block
        // begins, so the block's offset within the file equals `out.len()`.
        let to_read: usize = if block == count - 1 {
            size as usize - out.len()
        } else {
            block_size as usize
        };
        proof {
            assert(block as int * block_size as int + block_size as int == (block + 1) as int
                * block_size as int) by (nonlinear_arith);
            assert((block + 1) as int * block_size as int <= count * block_size as int)
                by (nonlinear_arith)
                requires
                    block < count,
                    block_size >= 1,
            ;
        }
        proof {
            if size == 0 {
                assert(block as int * block_size as int == 0) by (nonlinear_arith)
                    requires
                        block == 0,
                ;
            }
            assert(out@.len() == block as int * block_size as int);
        }
        let mut k: usize = 0;
        while k < to_read
            invariant
                base == base_g,
                k <= to_read,
                out@.len() == block as int * block_size as int + k,
                base_g + out@.len() + (to_read - k) <= data@.len(),
                data@.len() <= usize::MAX,
                forall|j: int| 0 <= j < out@.len() ==> out@[j] == data@[base_g + j],
            decreases to_read - k,
        {
            let pos: usize = base + out.len();
            let b = data[pos];
            out.push(b);
            k = k + 1;
        }
        block = block + 1;
        proof {
            if block < count {
                assert(block as int * (block_size as int) <= (count - 1) * (block_size as int))
                    by (nonlinear_arith)
                    requires
                        block < count,
                        block_size >= 1,
                ;
            }
            assert(out@.len() == vstd::math::min(block as int * block_size as int, size as int));
        }
    }
    proof {
        assert(out@ =~= data@.subrange(base_g, base_g + size as int));
    }
    out
}

} // verus!
