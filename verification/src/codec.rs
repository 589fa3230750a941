use crate::errors::FsError;
use crate::types::{Inode, Superblock, INODE_BYTES, NAME_BYTES, SUPERBLOCK_BYTES};
use crate::volume::Volume;
use vstd::bytes::{
    lemma_auto_spec_u32_to_from_le_bytes, spec_u32_from_le_bytes, spec_u32_to_le_bytes,
    u32_from_le_bytes, u32_to_le_bytes,
};
use vstd::prelude::*;
use vstd::slice::{slice_subrange, slice_to_vec};

verus! {

/// The `u32` encoded little-endian at byte offset `off`.
pub open spec fn spec_u32_at(bytes: Seq<u8>, off: int) -> u32 {
    spec_u32_from_le_bytes(bytes.subrange(off, off + 4))
}

/// The 24-byte wire form of the superblock: the six `u32` fields in
/// declaration order, each little-endian.
pub open spec fn spec_superblock_bytes(sb: Superblock) -> Seq<u8> {
    spec_u32_to_le_bytes(sb.total_size) + spec_u32_to_le_bytes(sb.block_size)
        + spec_u32_to_le_bytes(sb.total_blocks) + spec_u32_to_le_bytes(sb.total_inodes)
        + spec_u32_to_le_bytes(sb.used_blocks) + spec_u32_to_le_bytes(sb.used_inodes)
}

/// The 45-byte wire form of an inode record: the flag byte, the 32 name
/// bytes, then the three `u32` fields little-endian.
pub open spec fn spec_inode_bytes(inode: Inode) -> Seq<u8> {
    seq![inode.used] + inode.name@ + spec_u32_to_le_bytes(inode.size) + spec_u32_to_le_bytes(
        inode.start_block,
    ) + spec_u32_to_le_bytes(inode.block_count)
}

/// The wire form of the whole inode table: the records in slot order.
pub open spec fn spec_table_bytes(inodes: Seq<Inode>) -> Seq<u8>
    decreases inodes.len(),
{
    if inodes.len() == 0 {
        Seq::empty()
    } else {
        spec_table_bytes(inodes.drop_last()) + spec_inode_bytes(inodes.last())
    }
}

/// The wire form of a whole volume image: superblock, inode table, bitmap,
/// data region, in that order with no gaps.
pub open spec fn spec_volume_bytes(v: Volume) -> Seq<u8> {
    spec_superblock_bytes(v.superblock) + spec_table_bytes(v.inodes@) + v.bitmap.bits@ + v.data@
}

/// Encodes the superblock into its 24-byte wire form.
pub fn encode_superblock(sb: &Superblock) -> (r: Vec<u8>)
    ensures
        r@ == spec_superblock_bytes(*sb),
        r@.len() == SUPERBLOCK_BYTES,
{
    proof {
        lemma_auto_spec_u32_to_from_le_bytes();
    }
    let mut out = u32_to_le_bytes(sb.total_size);
    let mut field = u32_to_le_bytes(sb.block_size);
    out.append(&mut field);
    let mut field = u32_to_le_bytes(sb.total_blocks);
    out.append(&mut field);
    let mut field = u32_to_le_bytes(sb.total_inodes);
    out.append(&mut field);
    let mut field = u32_to_le_bytes(sb.used_blocks);
    out.append(&mut field);
    let mut field = u32_to_le_bytes(sb.used_inodes);
    out.append(&mut field);
    out
}

/// Reads the superblock record from the start of a volume image.  Fails
/// with `CorruptRecord` exactly when fewer bytes than the record width are
/// available.
pub fn read_superblock(bytes: &[u8]) -> (r: Result<Superblock, FsError>)
    ensures
        match r {
            Err(e) => e == FsError::CorruptRecord && bytes@.len() < SUPERBLOCK_BYTES,
            Ok(sb) => {
                &&& bytes@.len() >= SUPERBLOCK_BYTES
                &&& sb.total_size == spec_u32_at(bytes@, 0)
                &&& sb.block_size == spec_u32_at(bytes@, 4)
                &&& sb.total_blocks == spec_u32_at(bytes@, 8)
                &&& sb.total_inodes == spec_u32_at(bytes@, 12)
                &&& sb.used_blocks == spec_u32_at(bytes@, 16)
                &&& sb.used_inodes == spec_u32_at(bytes@, 20)
            },
        },
{
    if bytes.len() < SUPERBLOCK_BYTES {
        return Err(FsError::CorruptRecord);
    }
    let sb = Superblock {
        total_size: u32_from_le_bytes(slice_subrange(bytes, 0, 4)),
        block_size: u32_from_le_bytes(slice_subrange(bytes, 4, 8)),
        total_blocks: u32_from_le_bytes(slice_subrange(bytes, 8, 12)),
        total_inodes: u32_from_le_bytes(slice_subrange(bytes, 12, 16)),
        used_blocks: u32_from_le_bytes(slice_subrange(bytes, 16, 20)),
        used_inodes: u32_from_le_bytes(slice_subrange(bytes, 20, 24)),
    };
    Ok(sb)
}

/// Encoding the superblock and reading it back returns the same header.
pub proof fn lemma_superblock_round_trip(sb: Superblock)
    ensures
        spec_u32_at(spec_superblock_bytes(sb), 0) == sb.total_size,
        spec_u32_at(spec_superblock_bytes(sb), 4) == sb.block_size,
        spec_u32_at(spec_superblock_bytes(sb), 8) == sb.total_blocks,
        spec_u32_at(spec_superblock_bytes(sb), 12) == sb.total_inodes,
        spec_u32_at(spec_superblock_bytes(sb), 16) == sb.used_blocks,
        spec_u32_at(spec_superblock_bytes(sb), 20) == sb.used_inodes,
{
    lemma_auto_spec_u32_to_from_le_bytes();
    let encoded = spec_superblock_bytes(sb);
    assert(encoded.subrange(0, 4) =~= spec_u32_to_le_bytes(sb.total_size));
    assert(encoded.subrange(4, 8) =~= spec_u32_to_le_bytes(sb.block_size));
    assert(encoded.subrange(8, 12) =~= spec_u32_to_le_bytes(sb.total_blocks));
    assert(encoded.subrange(12, 16) =~= spec_u32_to_le_bytes(sb.total_inodes));
    assert(encoded.subrange(16, 20) =~= spec_u32_to_le_bytes(sb.used_blocks));
    assert(encoded.subrange(20, 24) =~= spec_u32_to_le_bytes(sb.used_inodes));
}

/// Encodes one inode record into its 45-byte wire form.
pub fn encode_inode(inode: &Inode) -> (r: Vec<u8>)
    ensures
        r@ == spec_inode_bytes(*inode),
        r@.len() == INODE_BYTES,
{
    proof {
        lemma_auto_spec_u32_to_from_le_bytes();
    }
    let mut out: Vec<u8> = Vec::new();
    out.push(inode.used);
    let mut name_bytes = slice_to_vec(inode.name.as_slice());
    out.append(&mut name_bytes);
    let mut field = u32_to_le_bytes(inode.size);
    out.append(&mut field);
    let mut field = u32_to_le_bytes(inode.start_block);
    out.append(&mut field);
    let mut field = u32_to_le_bytes(inode.block_count);
    out.append(&mut field);
    proof {
        assert(out@ =~= spec_inode_bytes(*inode));
    }
    out
}

/// Decodes one 45-byte inode record.  Fails with `CorruptRecord` exactly
/// when fewer bytes are available or the flag byte is neither 0 nor 1.
pub fn decode_inode(record: &[u8]) -> (r: Result<Inode, FsError>)
    ensures
        match r {
            Err(e) => e == FsError::CorruptRecord && (record@.len() < INODE_BYTES || record@[0]
                > 1),
            Ok(inode) => {
                &&& record@.len() >= INODE_BYTES
                &&& inode.used == record@[0]
                &&& inode.flag_valid()
                &&& inode.name@ == record@.subrange(1, 1 + NAME_BYTES as int)
                &&& inode.size == spec_u32_at(record@, 33)
                &&& inode.start_block == spec_u32_at(record@, 37)
                &&& inode.block_count == spec_u32_at(record@, 41)
            },
        },
{
    if record.len() < INODE_BYTES {
        return Err(FsError::CorruptRecord);
    }
    let used = record[0];
    if used > 1 {
        return Err(FsError::CorruptRecord);
    }
    let mut name = [0u8; 32];
    let mut i: usize = 0;
    while i < NAME_BYTES
        invariant
            i <= NAME_BYTES,
            record@.len() >= INODE_BYTES,
            name@.len() == NAME_BYTES,
            forall|j: int| 0 <= j < i ==> name@[j] == record@[1 + j],
        decreases NAME_BYTES - i,
    {
        name[i] = record[1 + i];
        i = i + 1;
    }
    let inode = Inode {
        used,
        name,
        size: u32_from_le_bytes(slice_subrange(record, 33, 37)),
        start_block: u32_from_le_bytes(slice_subrange(record, 37, 41)),
        block_count: u32_from_le_bytes(slice_subrange(record, 41, 45)),
    };
    proof {
        assert(inode.name@ =~= record@.subrange(1, 1 + NAME_BYTES as int));
    }
    Ok(inode)
}

/// Encoding an inode record and decoding it again returns the same record.
pub proof fn lemma_inode_round_trip(inode: Inode)
    ensures
        spec_inode_bytes(inode).len() == INODE_BYTES,
        spec_inode_bytes(inode)[0] == inode.used,
        spec_inode_bytes(inode).subrange(1, 1 + NAME_BYTES as int) == inode.name@,
        spec_u32_at(spec_inode_bytes(inode), 33) == inode.size,
        spec_u32_at(spec_inode_bytes(inode), 37) == inode.start_block,
        spec_u32_at(spec_inode_bytes(inode), 41) == inode.block_count,
{
    lemma_auto_spec_u32_to_from_le_bytes();
    let encoded = spec_inode_bytes(inode);
    assert(encoded.subrange(1, 1 + NAME_BYTES as int) =~= inode.name@);
    assert(encoded.subrange(33, 37) =~= spec_u32_to_le_bytes(inode.size));
    assert(encoded.subrange(37, 41) =~= spec_u32_to_le_bytes(inode.start_block));
    assert(encoded.subrange(41, 45) =~= spec_u32_to_le_bytes(inode.block_count));
}

/// Encodes a whole volume into its wire image: superblock, inode table,
/// bitmap, data region, in that order with no gaps.
pub fn volume_to_bytes(v: &Volume) -> (r: Vec<u8>)
    requires
        v.wf_structural(),
    ensures
        r@ == spec_volume_bytes(*v),
{
    let mut out = encode_superblock(&v.superblock);
    let mut i: usize = 0;
    while i < v.inodes.len()
        invariant
            i <= v.inodes@.len(),
            out@ == spec_superblock_bytes(v.superblock) + spec_table_bytes(
                v.inodes@.subrange(0, i as int),
            ),
        decreases v.inodes@.len() - i,
    {
        let mut record = encode_inode(&v.inodes[i]);
        out.append(&mut record);
        proof {
            assert(v.inodes@.subrange(0, i + 1).drop_last() =~= v.inodes@.subrange(0, i as int));
            assert(v.inodes@.subrange(0, i + 1).last() == v.inodes@[i as int]);
            assert(out@ =~= spec_superblock_bytes(v.superblock) + spec_table_bytes(
                v.inodes@.subrange(0, i + 1),
            ));
        }
        i = i + 1;
    }
    proof {
        assert(v.inodes@.subrange(0, v.inodes@.len() as int) =~= v.inodes@);
    }
    let mut bitmap_bytes = slice_to_vec(v.bitmap.bits.as_slice());
    out.append(&mut bitmap_bytes);
    let mut data_bytes = slice_to_vec(v.data.as_slice());
    out.append(&mut data_bytes);
    proof {
        assert(out@ =~= spec_volume_bytes(*v));
    }
    out
}

/// What it means for a volume to be the decoding of an image: the header
/// fields, every inode record, the bitmap and the data region all read off
/// the image at the fixed layout offsets, and the image holds exactly the
/// number of bytes the header's capacities call for.
pub open spec fn spec_decodes(bytes: Seq<u8>, v: Volume) -> bool {
    let ti = v.superblock.total_inodes as int;
    let bm_off = crate::layout::spec_bitmap_offset(ti);
    let bm_len = crate::types::spec_bitmap_len(v.superblock.total_blocks as int);
    &&& v.superblock.total_size == spec_u32_at(bytes, 0)
    &&& v.superblock.block_size == spec_u32_at(bytes, 4)
    &&& v.superblock.total_blocks == spec_u32_at(bytes, 8)
    &&& v.superblock.total_inodes == spec_u32_at(bytes, 12)
    &&& v.superblock.used_blocks == spec_u32_at(bytes, 16)
    &&& v.superblock.used_inodes == spec_u32_at(bytes, 20)
    &&& bytes.len() == crate::layout::spec_volume_len(
        ti,
        v.superblock.total_blocks as int,
        v.superblock.block_size as int,
    )
    &&& v.inodes@.len() == ti
    &&& forall|i: int|
        0 <= i < ti ==> {
            let off = SUPERBLOCK_BYTES + i * INODE_BYTES;
            &&& (#[trigger] v.inodes@[i]).used == bytes[off]
            &&& v.inodes@[i].flag_valid()
            &&& v.inodes@[i].name@ == bytes.subrange(off + 1, off + 1 + NAME_BYTES)
            &&& v.inodes@[i].size == spec_u32_at(bytes, off + 33)
            &&& v.inodes@[i].start_block == spec_u32_at(bytes, off + 37)
            &&& v.inodes@[i].block_count == spec_u32_at(bytes, off + 41)
        }
    &&& v.bitmap.bits@ == bytes.subrange(bm_off, bm_off + bm_len)
    &&& v.data@ == bytes.subrange(bm_off + bm_len, bytes.len() as int)
}

/// Decodes a whole volume image.
///
/// Reads the superblock, checks that the image holds exactly the bytes the
/// header's capacities call for, and decodes the table, the bitmap and the
/// data region at their computed offsets.  Fails with `CorruptRecord`
/// exactly when the image is shorter than the superblock record, its
/// length differs from what the header declares, or an inode flag byte is
/// neither 0 nor 1.
pub fn volume_from_bytes(bytes: &[u8]) -> (r: Result<Volume, FsError>)
    ensures
        ({
            let expected = crate::layout::spec_volume_len(
                spec_u32_at(bytes@, 12) as int,
                spec_u32_at(bytes@, 8) as int,
                spec_u32_at(bytes@, 4) as int,
            );
            r is Err <==> (bytes@.len() < SUPERBLOCK_BYTES || bytes@.len() != expected || exists|
                i: int,
            |
                0 <= i < spec_u32_at(bytes@, 12) && #[trigger] bytes@[SUPERBLOCK_BYTES + i
                    * INODE_BYTES] > 1)
        }),
        match r {
            Err(e) => e == FsError::CorruptRecord,
            Ok(v) => spec_decodes(bytes@, v),
        },
{
    let sb = match read_superblock(bytes) {
        Err(e) => {
            return Err(e);
        },
        Ok(sb) => sb,
    };
    let bm_off: u64 = crate::layout::bitmap_offset(sb.total_inodes);
    let bm_len: u64 = crate::layout::bitmap_len(sb.total_blocks);
    let data_off: u64 = bm_off + bm_len;
    proof {
        assert(sb.total_blocks as u64 * (sb.block_size as u64) <= 0xffff_fffe_0000_0001u64)
            by (nonlinear_arith)
            requires
                sb.total_blocks as u64 <= 0xffff_ffffu64,
                sb.block_size as u64 <= 0xffff_ffffu64,
        ;
    }
    let data_len: u64 = sb.total_blocks as u64 * sb.block_size as u64;
    let expected: u128 = data_off as u128 + data_len as u128;
    if bytes.len() as u128 != expected {
        return Err(FsError::CorruptRecord);
    }
    let total: usize = bytes.len();
    let ti = sb.total_inodes;
    let mut inodes: Vec<Inode> = Vec::new();
    let mut i: u32 = 0;
    let mut off: usize = SUPERBLOCK_BYTES;
    #[verifier::loop_isolation(false)]
    while i < ti
        invariant
            i <= ti,
            off == SUPERBLOCK_BYTES + i as int * INODE_BYTES,
            off + (ti - i) as int * INODE_BYTES == bm_off,
            bm_off as int + bm_len <= total,
            total == bytes@.len(),
            inodes@.len() == i,
            forall|j: int|
                0 <= j < i ==> {
                    let rec_off = SUPERBLOCK_BYTES + j * INODE_BYTES;
                    &&& (#[trigger] inodes@[j]).used == bytes@[rec_off]
                    &&& inodes@[j].flag_valid()
                    &&& inodes@[j].name@ == bytes@.subrange(rec_off + 1, rec_off + 1 + NAME_BYTES)
                    &&& inodes@[j].size == spec_u32_at(bytes@, rec_off + 33)
                    &&& inodes@[j].start_block == spec_u32_at(bytes@, rec_off + 37)
                    &&& inodes@[j].block_count == spec_u32_at(bytes@, rec_off + 41)
                },
            forall|j: int|
                0 <= j < i ==> #[trigger] bytes@[SUPERBLOCK_BYTES + j * INODE_BYTES] <= 1,
        decreases ti - i,
    {
        proof {
            assert((ti - i) as int * INODE_BYTES >= 1 * INODE_BYTES) by (nonlinear_arith)
                requires
                    i < ti,
            ;
        }
        let record = slice_subrange(bytes, off, off + INODE_BYTES);
        let inode = match decode_inode(record) {
            Err(e) => {
                proof {
                    assert(record@[0] == bytes@[SUPERBLOCK_BYTES + i as int * INODE_BYTES]);
                }
                return Err(e);
            },
            Ok(inode) => inode,
        };
        proof {
            let rec_off = SUPERBLOCK_BYTES + i as int * INODE_BYTES;
            assert(record@.subrange(1, 1 + NAME_BYTES as int) =~= bytes@.subrange(
                rec_off + 1,
                rec_off + 1 + NAME_BYTES,
            ));
            assert(record@.subrange(33, 37) =~= bytes@.subrange(rec_off + 33, rec_off + 37));
            assert(record@.subrange(37, 41) =~= bytes@.subrange(rec_off + 37, rec_off + 41));
            assert(record@.subrange(41, 45) =~= bytes@.subrange(rec_off + 41, rec_off + 45));
            assert((i + 1) as int * INODE_BYTES == i as int * INODE_BYTES + INODE_BYTES)
                by (nonlinear_arith);
            assert((ti - i - 1) as int * INODE_BYTES == (ti - i) as int * INODE_BYTES
                - INODE_BYTES) by (nonlinear_arith);
        }
        inodes.push(inode);
        off = off + INODE_BYTES;
        i = i + 1;
    }
    let bitmap_bits = slice_to_vec(slice_subrange(bytes, off, off + bm_len as usize));
    let data = slice_to_vec(slice_subrange(bytes, off + bm_len as usize, total));
    let v = Volume { superblock: sb, inodes, bitmap: crate::types::Bitmap { bits: bitmap_bits }, data };
    proof {
        assert((ti - ti) as int * INODE_BYTES == 0) by (nonlinear_arith);
        assert(off == bm_off);
        assert(v.bitmap.bits@ =~= bytes@.subrange(bm_off as int, bm_off as int + bm_len as int));
        assert(v.data@ =~= bytes@.subrange(bm_off as int + bm_len as int, bytes@.len() as int));
    }
    Ok(v)
}

/// The wire form of an inode table is one record width per slot.
pub proof fn lemma_table_bytes_len(inodes: Seq<Inode>)
    ensures
        spec_table_bytes(inodes).len() == inodes.len() * INODE_BYTES,
    decreases inodes.len(),
{
    lemma_auto_spec_u32_to_from_le_bytes();
    if inodes.len() > 0 {
        lemma_table_bytes_len(inodes.drop_last());
    }
}

/// Each slot's record sits at its fixed offset within the table bytes.
pub proof fn lemma_table_bytes_index(inodes: Seq<Inode>, i: int)
    requires
        0 <= i < inodes.len(),
    ensures
        spec_table_bytes(inodes).subrange(i * INODE_BYTES, (i + 1) * INODE_BYTES)
            == spec_inode_bytes(inodes[i]),
    decreases inodes.len(),
{
    lemma_table_bytes_len(inodes);
    lemma_inode_round_trip(inodes[i]);
    let table = spec_table_bytes(inodes);
    let shorter = spec_table_bytes(inodes.drop_last());
    lemma_table_bytes_len(inodes.drop_last());
    if i == inodes.len() - 1 {
        assert(table.subrange(i * INODE_BYTES, (i + 1) * INODE_BYTES) =~= spec_inode_bytes(
            inodes[i],
        ));
    } else {
        lemma_table_bytes_index(inodes.drop_last(), i);
        assert(table.subrange(i * INODE_BYTES, (i + 1) * INODE_BYTES) =~= shorter.subrange(
            i * INODE_BYTES,
            (i + 1) * INODE_BYTES,
        ));
    }
}

/// The image round-trip law: decoding the encoded image of a structurally
/// valid volume yields that volume back, part for part.
pub proof fn lemma_volume_image_round_trip(v: Volume, w: Volume)
    requires
        v.wf_structural(),
        spec_decodes(spec_volume_bytes(v), w),
    ensures
        w.superblock == v.superblock,
        w.inodes@ == v.inodes@,
        w.bitmap.bits@ == v.bitmap.bits@,
        w.data@ == v.data@,
{
    lemma_auto_spec_u32_to_from_le_bytes();
    lemma_superblock_round_trip(v.superblock);
    lemma_table_bytes_len(v.inodes@);
    let bytes = spec_volume_bytes(v);
    let header = spec_superblock_bytes(v.superblock);
    let table = spec_table_bytes(v.inodes@);
    let ti = v.superblock.total_inodes as int;
    let bm_off = crate::layout::spec_bitmap_offset(ti);
    let bm_len = crate::types::spec_bitmap_len(v.superblock.total_blocks as int);
    assert(bytes.subrange(0, 4) =~= header.subrange(0, 4));
    assert(bytes.subrange(4, 8) =~= header.subrange(4, 8));
    assert(bytes.subrange(8, 12) =~= header.subrange(8, 12));
    assert(bytes.subrange(12, 16) =~= header.subrange(12, 16));
    assert(bytes.subrange(16, 20) =~= header.subrange(16, 20));
    assert(bytes.subrange(20, 24) =~= header.subrange(20, 24));
    assert(w.superblock == v.superblock);
    assert forall|i: int| 0 <= i < ti implies w.inodes@[i] == v.inodes@[i] by {
        lemma_table_bytes_index(v.inodes@, i);
        lemma_inode_round_trip(v.inodes@[i]);
        let off = SUPERBLOCK_BYTES + i * INODE_BYTES;
        let record = spec_inode_bytes(v.inodes@[i]);
        assert((i + 1) * INODE_BYTES <= ti * INODE_BYTES) by (nonlinear_arith)
            requires
                i + 1 <= ti,
        ;
        assert(bytes.subrange(off, off + INODE_BYTES) =~= table.subrange(
            i * INODE_BYTES,
            (i + 1) * INODE_BYTES,
        ));
        assert(bytes[off] == record[0]);
        assert(bytes.subrange(off + 1, off + 1 + NAME_BYTES) =~= record.subrange(
            1,
            1 + NAME_BYTES as int,
        ));
        assert(bytes.subrange(off + 33, off + 37) =~= record.subrange(33, 37));
        assert(bytes.subrange(off + 37, off + 41) =~= record.subrange(37, 41));
        assert(bytes.subrange(off + 41, off + 45) =~= record.subrange(41, 45));
        assert(w.inodes@[i].name@ == v.inodes@[i].name@);
        assert(w.inodes@[i].name =~= v.inodes@[i].name);
    }
    assert(w.inodes@ =~= v.inodes@);
    assert(w.bitmap.bits@ =~= bytes.subrange(bm_off, bm_off + bm_len));
    assert(v.bitmap.bits@ =~= bytes.subrange(bm_off, bm_off + bm_len));
    assert(v.data@ =~= bytes.subrange(bm_off + bm_len, bytes.len() as int));
}

} // verus!
