use crate::allocator::{blocks_needed, find_free_block, lemma_first_fit_on_prefix_is_contiguous};
use crate::directory::{
    count_used, decoded_name, find_by_name, find_free_inode, lemma_count_used_update,
    lemma_count_used_with_free, lemma_find_free_props, lemma_find_match_props,
    lemma_find_match_skip, lemma_list_used_empty, lemma_stored_name_round_trip, list_used,
    spec_find_free, spec_find_match, spec_list_used, stored_name, write_inode,
};
use crate::errors::FsError;
use crate::transfer::{read_file_content, write_content_to_blocks};
use crate::types::{
    bit_is_set, bitmap_is_prefix, count_free, lemma_blocks_needed_bounds, lemma_count_free_prefix,
    spec_bitmap_len, spec_blocks_needed, Bitmap, Inode, Superblock, NAME_BYTES,
};
use vstd::prelude::*;

verus! {

/// A whole volume held in memory: the superblock, the inode table, the
/// allocation bitmap, and the data region.  The caller owns the image;
/// every operation takes the volume explicitly and leaves no hidden state.
pub struct Volume {
    pub superblock: Superblock,
    pub inodes: Vec<Inode>,
    pub bitmap: Bitmap,
    pub data: Vec<u8>,
}

impl Volume {
    /// The structural invariants every operation needs: a well-formed
    /// superblock, the three variable-size regions sized exactly by it,
    /// valid flag bytes, and every used record accounting for its content
    /// within the data region.
    pub open spec fn wf_structural(self) -> bool {
        &&& self.superblock.wf()
        &&& self.inodes@.len() == self.superblock.total_inodes
        &&& self.bitmap.bits@.len() == spec_bitmap_len(self.superblock.total_blocks as int)
        &&& self.data@.len() == self.superblock.total_blocks as int
            * self.superblock.block_size as int
        &&& forall|i: int|
            0 <= i < self.inodes@.len() ==> (#[trigger] self.inodes@[i]).flag_valid()
        &&& forall|i: int|
            0 <= i < self.inodes@.len() ==> (#[trigger] self.inodes@[i]).accounting_ok(
                self.superblock.block_size as int,
                self.superblock.total_blocks as int,
            )
    }

    /// Full well-formedness: on top of the structure, the bitmap is the
    /// exact prefix of `used_blocks` set bits, the used-inode counter
    /// counts the used records, and every file's block run lies inside the
    /// allocated prefix.  The core establishes this at format time and
    /// preserves it across every create; no delete path exists to break it.
    pub open spec fn wf(self) -> bool {
        &&& self.wf_structural()
        &&& bitmap_is_prefix(
            self.bitmap.bits@,
            self.superblock.used_blocks as int,
            self.superblock.total_blocks as int,
        )
        &&& self.superblock.used_inodes == count_used(self.inodes@)
        &&& forall|i: int|
            0 <= i < self.inodes@.len() && (#[trigger] self.inodes@[i]).is_used()
                ==> self.inodes@[i].start_block + self.inodes@[i].block_count
                <= self.superblock.used_blocks
    }
}

/// Every header this core persists satisfies the size equation: the total
/// size it declares is exactly the block size times the block count.
pub proof fn lemma_header_arithmetic(v: Volume)
    requires
        v.wf_structural(),
    ensures
        v.superblock.total_size == v.superblock.block_size * v.superblock.total_blocks,
{
}

/// Formats a fresh volume: a header with zeroed usage counters, a table of
/// zeroed unused records, an all-clear bitmap, and an all-zero data region
/// of exactly `block_size * total_blocks` bytes.  The capacities are fixed
/// here once and for all; formatting is also the only way to replace them.
pub fn format(block_size: u32, total_blocks: u32, total_inodes: u32) -> (v: Volume)
    requires
        block_size >= 1,
        block_size as int * total_blocks as int <= u32::MAX,
    ensures
        v.wf(),
        v.superblock.total_size == block_size as int * total_blocks as int,
        v.superblock.block_size == block_size,
        v.superblock.total_blocks == total_blocks,
        v.superblock.total_inodes == total_inodes,
        v.superblock.used_blocks == 0,
        v.superblock.used_inodes == 0,
        forall|i: int| 0 <= i < total_inodes ==> !(#[trigger] v.inodes@[i]).is_used(),
        forall|j: int| 0 <= j < total_blocks ==> !bit_is_set(v.bitmap.bits@, j),
        forall|p: int| 0 <= p < v.data@.len() ==> v.data@[p] == 0,
        spec_list_used(v.inodes@) == Seq::<(u32, Inode)>::empty(),
{
    let total_size: u32 = block_size * total_blocks;
    let superblock = Superblock {
        total_size,
        block_size,
        total_blocks,
        total_inodes,
        used_blocks: 0,
        used_inodes: 0,
    };
    let mut inodes: Vec<Inode> = Vec::new();
    let mut i: u32 = 0;
    while i < total_inodes
        invariant
            i <= total_inodes,
            inodes@.len() == i,
            forall|j: int|
                0 <= j < i ==> (#[trigger] inodes@[j]).used == 0 && inodes@[j].size == 0
                    && inodes@[j].start_block == 0 && inodes@[j].block_count == 0,
        decreases total_inodes - i,
    {
        let record = Inode { used: 0, name: [0u8; 32], size: 0, start_block: 0, block_count: 0 };
        inodes.push(record);
        i = i + 1;
    }
    let bitmap_bytes: u64 = (total_blocks as u64 + 7) / 8;
    let mut bits: Vec<u8> = Vec::new();
    let mut b: u64 = 0;
    while b < bitmap_bytes
        invariant
            b <= bitmap_bytes,
            bits@.len() == b,
            forall|j: int| 0 <= j < b ==> bits@[j] == 0,
        decreases bitmap_bytes - b,
    {
        bits.push(0u8);
        b = b + 1;
    }
    let data_bytes: u32 = total_size;
    let mut data: Vec<u8> = Vec::new();
    let mut p: u32 = 0;
    while p < data_bytes
        invariant
            p <= data_bytes,
            data@.len() == p,
            forall|j: int| 0 <= j < p ==> data@[j] == 0,
        decreases data_bytes - p,
    {
        data.push(0u8);
        p = p + 1;
    }
    let v = Volume { superblock, inodes, bitmap: Bitmap { bits }, data };
    proof {
        assert(v.data@.len() == total_size);
        assert(total_blocks as int * block_size as int == block_size as int * total_blocks as int)
            by (nonlinear_arith);
        assert(v.data@.len() == total_blocks as int * block_size as int);
        assert forall|j: int| 0 <= j < total_blocks implies !bit_is_set(v.bitmap.bits@, j) by {
            assert(v.bitmap.bits@[j / 8] == 0);
            assert(0u8 & (1u8 << ((j % 8) as u8)) == 0) by (bit_vector);
        }
        assert(count_used(v.inodes@) == 0) by {
            lemma_count_used_all_free(v.inodes@);
        }
        lemma_list_used_empty(v.inodes@);
    }
    v
}

/// A table with no used record counts zero used records.
proof fn lemma_count_used_all_free(inodes: Seq<Inode>)
    requires
        forall|j: int| 0 <= j < inodes.len() ==> !(#[trigger] inodes[j]).is_used(),
    ensures
        count_used(inodes) == 0,
    decreases inodes.len(),
{
    if inodes.len() > 0 {
        lemma_count_used_all_free(inodes.drop_last());
    }
}

/// What a successful create does to the volume, stated over the state
/// before and after: the first free slot now carries the new file's record
/// (flag set, the stored name, the content length, and a run of
/// `spec_blocks_needed` blocks starting at the old `used_blocks` mark), the
/// bitmap gains exactly that run of bits, the content occupies exactly the
/// corresponding byte range of the data region with every other byte
/// untouched, and the two usage counters advance by the run length and by
/// one slot.
pub open spec fn post_create(pre: Volume, post: Volume, name: Seq<u8>, content: Seq<u8>) -> bool {
    let bs = pre.superblock.block_size as int;
    let tb = pre.superblock.total_blocks as int;
    let ub = pre.superblock.used_blocks as int;
    let n = spec_blocks_needed(content.len() as int, bs);
    &&& spec_find_free(pre.inodes@, 0) matches Some(slot) && {
        &&& post.inodes@.len() == pre.inodes@.len()
        &&& forall|j: int|
            0 <= j < pre.inodes@.len() && j != slot ==> post.inodes@[j] == pre.inodes@[j]
        &&& post.inodes@[slot].used == 1
        &&& post.inodes@[slot].name@ == stored_name(name)
        &&& post.inodes@[slot].size == content.len()
        &&& post.inodes@[slot].start_block == ub
        &&& post.inodes@[slot].block_count == n
    }
    &&& post.superblock.total_size == pre.superblock.total_size
    &&& post.superblock.block_size == pre.superblock.block_size
    &&& post.superblock.total_blocks == pre.superblock.total_blocks
    &&& post.superblock.total_inodes == pre.superblock.total_inodes
    &&& post.superblock.used_blocks == ub + n
    &&& post.superblock.used_inodes == pre.superblock.used_inodes + 1
    &&& post.bitmap.bits@.len() == pre.bitmap.bits@.len()
    &&& forall|j: int|
        0 <= j < tb ==> (bit_is_set(post.bitmap.bits@, j) <==> (bit_is_set(pre.bitmap.bits@, j)
            || ub <= j < ub + n))
    &&& post.data@.len() == pre.data@.len()
    &&& forall|k: int| 0 <= k < content.len() ==> post.data@[ub * bs + k] == content[k]
    &&& forall|p: int|
        0 <= p < pre.data@.len() && !(ub * bs <= p < ub * bs + content.len())
            ==> post.data@[p] == pre.data@[p]
}

/// Creates a named file with the given content.
///
/// Finds the first free inode slot, allocates the needed blocks first-fit,
/// writes the content into them, records the descriptor, persists the
/// updated bitmap and advances the header counters - in that order, with
/// every check made before the first mutation, so a failed create leaves
/// the volume exactly as it was.  Fails with `OutOfSpace` exactly when no
/// slot is free, a usage counter has reached its capacity, or fewer free
/// blocks exist than the content needs.  Should the allocator ever hand
/// back a non-contiguous run - impossible on a fully well-formed volume,
/// where the bitmap is a prefix of set bits - the create refuses it loudly
/// with `Fragmented` rather than writing blocks a read could not find
/// again.
pub fn create(v: &mut Volume, name: &[u8], content: &[u8]) -> (r: Result<(), FsError>)
    requires
        old(v).wf_structural(),
        content@.len() <= u32::MAX,
    ensures
        final(v).wf_structural(),
        r is Err ==> final(v).superblock == old(v).superblock && final(v).inodes@ == old(
            v,
        ).inodes@ && final(v).bitmap.bits@ == old(v).bitmap.bits@ && final(v).data@ == old(
            v,
        ).data@,
        r matches Err(e) ==> e == FsError::OutOfSpace || e == FsError::Fragmented,
        ({
            let tb = old(v).superblock.total_blocks as int;
            let n = spec_blocks_needed(content@.len() as int, old(v).superblock.block_size as int);
            r == Result::<(), FsError>::Err(FsError::OutOfSpace) <==> {
                ||| spec_find_free(old(v).inodes@, 0) is None
                ||| old(v).superblock.used_inodes >= old(v).superblock.total_inodes
                ||| n > tb - old(v).superblock.used_blocks
                ||| count_free(old(v).bitmap.bits@, tb) < n
            }
        }),
        old(v).wf() ==> (r is Ok <==> (old(v).superblock.used_inodes
            < old(v).superblock.total_inodes && spec_blocks_needed(
            content@.len() as int,
            old(v).superblock.block_size as int,
        ) <= old(v).superblock.total_blocks - old(v).superblock.used_blocks)),
        old(v).wf() && r is Ok ==> final(v).wf() && post_create(
            *old(v),
            *final(v),
            name@,
            content@,
        ),
{
    let ghost pre = *old(v);
    let sb = v.superblock;
    let ghost n = spec_blocks_needed(content@.len() as int, sb.block_size as int);
    proof {
        lemma_blocks_needed_bounds(content@.len() as int, sb.block_size as int);
        if pre.wf() {
            lemma_count_free_prefix(
                pre.bitmap.bits@,
                sb.used_blocks as int,
                sb.total_blocks as int,
                sb.total_blocks as int,
            );
        }
    }
    let slot = match find_free_inode(&v.inodes) {
        None => {
            proof {
                if pre.wf() {
                    lemma_find_free_props(pre.inodes@, 0);
                    crate::directory::lemma_count_used_all_used(pre.inodes@);
                }
            }
            return Err(FsError::OutOfSpace);
        },
        Some(s) => s,
    };
    proof {
        lemma_find_free_props(pre.inodes@, 0);
        if pre.wf() {
            lemma_count_used_with_free(pre.inodes@, slot as int);
        }
    }
    if sb.used_inodes >= sb.total_inodes {
        return Err(FsError::OutOfSpace);
    }
    let needed: u64 = blocks_needed(sb.block_size, content.len());
    if needed > (sb.total_blocks - sb.used_blocks) as u64 {
        return Err(FsError::OutOfSpace);
    }
    let (blocks, updated_bitmap) = match find_free_block(&v.bitmap, &sb, content.len()) {
        Err(e) => {
            return Err(e);
        },
        Ok(pair) => pair,
    };
    proof {
        if pre.wf() {
            lemma_first_fit_on_prefix_is_contiguous(
                pre.bitmap.bits@,
                blocks@,
                sb.used_blocks as int,
                sb.total_blocks as int,
            );
        }
    }
    let mut i: usize = 1;
    #[verifier::loop_isolation(false)]
    while i < blocks.len()
        invariant
            1 <= i <= blocks@.len(),
            forall|j: int| 0 <= j < i ==> #[trigger] blocks@[j] as int == blocks@[0] + j,
        decreases blocks@.len() - i,
    {
        if blocks[i] != blocks[i - 1] + 1 {
            proof {
                if pre.wf() {
                    assert(blocks@[i as int] == sb.used_blocks + i);
                    assert(blocks@[i - 1] == sb.used_blocks + i - 1);
                    assert(false);
                }
            }
            return Err(FsError::Fragmented);
        }
        i = i + 1;
    }
    let first_block: u32 = blocks[0];
    proof {
        assert(blocks@[blocks@.len() - 1] as int == first_block + (blocks@.len() - 1));
        assert(first_block + blocks@.len() <= sb.total_blocks);
        assert((first_block + blocks@.len()) * sb.block_size as int <= sb.total_blocks as int
            * sb.block_size as int) by (nonlinear_arith)
            requires
                first_block + blocks@.len() <= sb.total_blocks,
                sb.block_size >= 1,
        ;
        assert(content@.len() <= blocks@.len() * sb.block_size as int);
    }
    write_content_to_blocks(&mut v.data, &blocks, sb.block_size, content);
    write_inode(&mut v.inodes, slot, name, content.len() as u32, first_block, needed as u32);
    v.bitmap = updated_bitmap;
    v.superblock = Superblock {
        used_blocks: sb.used_blocks + needed as u32,
        used_inodes: sb.used_inodes + 1,
        ..sb
    };
    proof {
        let bs = sb.block_size as int;
        let tb = sb.total_blocks as int;
        let ub = sb.used_blocks as int;
        assert forall|j: int| 0 <= j < v.inodes@.len() implies (#[trigger] v.inodes@[j]).flag_valid()
            && v.inodes@[j].accounting_ok(bs, tb) by {
            if j != slot as int {
                assert(v.inodes@[j] == pre.inodes@[j]);
            }
        }
        assert(v.wf_structural());
        if pre.wf() {
            assert forall|j: int| 0 <= j < tb implies (bit_is_set(v.bitmap.bits@, j) <==> j < ub
                + n) by {
                if ub <= j < ub + n {
                    assert(blocks@[j - ub] == j);
                }
                if bit_is_set(v.bitmap.bits@, j) && !bit_is_set(pre.bitmap.bits@, j) {
                    let w = choose|w: int| 0 <= w < n && blocks@[w] == j;
                    assert(blocks@[w] as int == ub + w);
                }
            }
            lemma_count_used_update(pre.inodes@, slot as int, v.inodes@[slot as int]);
            assert(v.inodes@ =~= pre.inodes@.update(slot as int, v.inodes@[slot as int]));
            assert forall|k: int| 0 <= k < content@.len() implies v.data@[ub * bs + k]
                == content@[k] by {
                assert(v.data@[first_block as int * bs + k] == content@[k]);
                assert(first_block as int * bs == ub * bs);
            }
            assert forall|p: int|
                0 <= p < pre.data@.len() && !(ub * bs <= p < ub * bs + content@.len()) implies
                v.data@[p] == pre.data@[p] by {
                assert(first_block as int * bs == ub * bs);
            }
            assert(post_create(pre, *v, name@, content@));
            assert(v.wf());
        }
    }
    Ok(())
}

/// Checks the structural invariants at run time, so an unverified caller
/// that decoded an image from disk can test them before handing the volume
/// to the operations whose contracts assume them.
pub fn check_structural(v: &Volume) -> (b: bool)
    ensures
        b == v.wf_structural(),
{
    let sb = v.superblock;
    if sb.block_size < 1 {
        return false;
    }
    proof {
        assert(sb.total_blocks as u64 * (sb.block_size as u64) <= 0xffff_fffe_0000_0001u64)
            by (nonlinear_arith)
            requires
                sb.total_blocks as u64 <= 0xffff_ffffu64,
                sb.block_size as u64 <= 0xffff_ffffu64,
        ;
        assert(sb.block_size as u64 * (sb.total_blocks as u64) == sb.total_blocks as u64 * (
        sb.block_size as u64)) by (nonlinear_arith);
    }
    if sb.total_size as u64 != sb.block_size as u64 * sb.total_blocks as u64 {
        return false;
    }
    if sb.used_blocks > sb.total_blocks || sb.used_inodes > sb.total_inodes {
        return false;
    }
    if v.inodes.len() as u64 != sb.total_inodes as u64 {
        return false;
    }
    if v.bitmap.bits.len() as u64 != (sb.total_blocks as u64 + 7) / 8 {
        return false;
    }
    if v.data.len() as u64 != sb.total_blocks as u64 * sb.block_size as u64 {
        return false;
    }
    let mut i: usize = 0;
    #[verifier::loop_isolation(false)]
    while i < v.inodes.len()
        invariant
            i <= v.inodes@.len(),
            forall|j: int|
                0 <= j < i ==> (#[trigger] v.inodes@[j]).flag_valid()
                    && v.inodes@[j].accounting_ok(
                    sb.block_size as int,
                    sb.total_blocks as int,
                ),
        decreases v.inodes@.len() - i,
    {
        let record = v.inodes[i];
        if record.used > 1 {
            return false;
        }
        if record.used == 1 {
            let needed = blocks_needed(sb.block_size, record.size as usize);
            if record.block_count as u64 != needed {
                return false;
            }
            if record.start_block as u64 + record.block_count as u64 > sb.total_blocks as u64 {
                return false;
            }
        }
        i = i + 1;
    }
    true
}

/// The round-trip law: on a well-formed volume, creating a file under a
/// name no used record already carries and then looking that name up finds
/// the new record, and reading its block run yields exactly the content
/// that was written.  The name must fit the buffer and not end in a zero
/// byte, since zero-padding makes a trailing zero indistinguishable from
/// padding.
pub proof fn lemma_create_round_trip(pre: Volume, post: Volume, name: Seq<u8>, content: Seq<u8>)
    requires
        pre.wf(),
        post_create(pre, post, name, content),
        content.len() <= u32::MAX,
        spec_blocks_needed(content.len() as int, pre.superblock.block_size as int)
            <= pre.superblock.total_blocks - pre.superblock.used_blocks,
        name.len() < NAME_BYTES,
        name.len() > 0 ==> name.last() != 0,
        spec_find_match(pre.inodes@, name, 0) is None,
    ensures
        spec_find_match(post.inodes@, name, 0) matches Some(slot) && {
            let bs = post.superblock.block_size as int;
            let record = post.inodes@[slot];
            &&& record.size == content.len()
            &&& post.data@.subrange(
                record.start_block * bs,
                record.start_block * bs + record.size as int,
            ) == content
        },
{
    let bs = pre.superblock.block_size as int;
    let ub = pre.superblock.used_blocks as int;
    lemma_find_free_props(pre.inodes@, 0);
    let slot = spec_find_free(pre.inodes@, 0)->Some_0;
    lemma_find_match_props(pre.inodes@, name, 0);
    lemma_stored_name_round_trip(name);
    assert(decoded_name(post.inodes@[slot].name@) == name);
    assert forall|j: int|
        0 <= j < slot implies !((#[trigger] post.inodes@[j]).is_used() && decoded_name(
        post.inodes@[j].name@,
    ) == name) by {
        assert(post.inodes@[j] == pre.inodes@[j]);
    }
    lemma_find_match_skip(post.inodes@, name, 0, slot);
    assert(spec_find_match(post.inodes@, name, slot) == Some(slot));
    let record = post.inodes@[slot];
    assert(record.start_block as int * bs == ub * bs);
    let tb = pre.superblock.total_blocks as int;
    let n = spec_blocks_needed(content.len() as int, bs);
    lemma_blocks_needed_bounds(content.len() as int, bs);
    assert(ub * bs + n * bs == (ub + n) * bs) by (nonlinear_arith);
    assert((ub + n) * bs <= tb * bs) by (nonlinear_arith)
        requires
            ub + n <= tb,
            bs >= 1,
    ;
    assert(ub * bs + content.len() <= post.data@.len());
    assert(post.data@.subrange(ub * bs, ub * bs + content.len() as int) =~= content);
}

/// Lists the used entries of the volume in ascending slot order.
pub fn ls(v: &Volume) -> (r: Vec<(u32, Inode)>)
    requires
        v.wf_structural(),
    ensures
        r@ == spec_list_used(v.inodes@),
{
    list_used(&v.inodes)
}

/// Looks a file up by name and reassembles its content.
///
/// Scans the table in ascending slot order for the first used record whose
/// decoded name equals the query and reads its contiguous block run back;
/// returns `None` when no record matches.
pub fn cat(v: &Volume, name: &[u8]) -> (r: Option<Vec<u8>>)
    requires
        v.wf_structural(),
    ensures
        match spec_find_match(v.inodes@, name@, 0) {
            None => r is None,
            Some(i) => r matches Some(c) && c@ == v.data@.subrange(
                v.inodes@[i].start_block * v.superblock.block_size as int,
                v.inodes@[i].start_block * v.superblock.block_size as int
                    + v.inodes@[i].size as int,
            ),
        },
{
    let idx = match find_by_name(&v.inodes, name) {
        None => {
            return None;
        },
        Some(idx) => idx,
    };
    proof {
        lemma_find_match_props(v.inodes@, name@, 0);
    }
    let record = v.inodes[idx as usize];
    proof {
        let bs = v.superblock.block_size as int;
        let tb = v.superblock.total_blocks as int;
        assert((record.start_block + record.block_count) * bs <= tb * bs) by (nonlinear_arith)
            requires
                record.start_block + record.block_count <= tb,
                bs >= 1,
        ;
    }
    Some(read_file_content(&v.data, &record, v.superblock.block_size))
}

} // verus!
