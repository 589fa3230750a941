use crate::types::{Inode, NAME_BYTES};
use vstd::prelude::*;

verus! {

/// The name bytes stored for a query name: the first `NAME_BYTES - 1` bytes
/// at most, padded with zeros to the full buffer width.
pub open spec fn stored_name(name: Seq<u8>) -> Seq<u8> {
    Seq::new(
        NAME_BYTES as nat,
        |i: int|
            if i < name.len() && i < NAME_BYTES - 1 {
                name[i]
            } else {
                0u8
            },
    )
}

/// The name a stored buffer denotes: the buffer with its zero padding
/// stripped from the end.
pub open spec fn decoded_name(buffer: Seq<u8>) -> Seq<u8>
    decreases buffer.len(),
{
    if buffer.len() == 0 {
        buffer
    } else if buffer.last() == 0 {
        decoded_name(buffer.drop_last())
    } else {
        buffer
    }
}

/// The first free slot at or after `from`, if any.
pub open spec fn spec_find_free(inodes: Seq<Inode>, from: int) -> Option<int>
    decreases inodes.len() - from,
{
    if from < 0 || from >= inodes.len() {
        None
    } else if !inodes[from].is_used() {
        Some(from)
    } else {
        spec_find_free(inodes, from + 1)
    }
}

/// The first used slot at or after `from` whose decoded name is `name`.
pub open spec fn spec_find_match(inodes: Seq<Inode>, name: Seq<u8>, from: int) -> Option<int>
    decreases inodes.len() - from,
{
    if from < 0 || from >= inodes.len() {
        None
    } else if inodes[from].is_used() && decoded_name(inodes[from].name@) == name {
        Some(from)
    } else {
        spec_find_match(inodes, name, from + 1)
    }
}

/// The used entries in ascending slot order, each with its slot index.
pub open spec fn spec_list_used(inodes: Seq<Inode>) -> Seq<(u32, Inode)>
    decreases inodes.len(),
{
    if inodes.len() == 0 {
        Seq::empty()
    } else if inodes.last().is_used() {
        spec_list_used(inodes.drop_last()).push(((inodes.len() - 1) as u32, inodes.last()))
    } else {
        spec_list_used(inodes.drop_last())
    }
}

/// Number of used records in the table.
pub open spec fn count_used(inodes: Seq<Inode>) -> int
    decreases inodes.len(),
{
    if inodes.len() == 0 {
        0
    } else {
        count_used(inodes.drop_last()) + if inodes.last().is_used() {
            1int
        } else {
            0int
        }
    }
}

/// The used count never exceeds the table length.
pub proof fn lemma_count_used_bounds(inodes: Seq<Inode>)
    ensures
        0 <= count_used(inodes) <= inodes.len(),
    decreases inodes.len(),
{
    if inodes.len() > 0 {
        lemma_count_used_bounds(inodes.drop_last());
    }
}

/// A fully used table counts all of its slots.
pub proof fn lemma_count_used_all_used(inodes: Seq<Inode>)
    requires
        forall|j: int| 0 <= j < inodes.len() ==> (#[trigger] inodes[j]).is_used(),
    ensures
        count_used(inodes) == inodes.len(),
    decreases inodes.len(),
{
    if inodes.len() > 0 {
        lemma_count_used_all_used(inodes.drop_last());
    }
}

/// A table with a free slot counts fewer used records than slots.
pub proof fn lemma_count_used_with_free(inodes: Seq<Inode>, i: int)
    requires
        0 <= i < inodes.len(),
        !inodes[i].is_used(),
    ensures
        count_used(inodes) < inodes.len(),
    decreases inodes.len(),
{
    if i == inodes.len() - 1 {
        lemma_count_used_bounds(inodes.drop_last());
    } else {
        lemma_count_used_with_free(inodes.drop_last(), i);
    }
}

/// Marking a free slot used raises the used count by exactly one.
pub proof fn lemma_count_used_update(inodes: Seq<Inode>, slot: int, inode: Inode)
    requires
        0 <= slot < inodes.len(),
        !inodes[slot].is_used(),
        inode.is_used(),
    ensures
        count_used(inodes.update(slot, inode)) == count_used(inodes) + 1,
    decreases inodes.len(),
{
    let updated = inodes.update(slot, inode);
    if slot == inodes.len() - 1 {
        assert(updated.drop_last() =~= inodes.drop_last());
        assert(updated.last() == inode);
    } else {
        assert(updated.drop_last() =~= inodes.drop_last().update(slot, inode));
        assert(updated.last() == inodes.last());
        lemma_count_used_update(inodes.drop_last(), slot, inode);
    }
}

/// What a free-slot scan result means: the slot it names is the first free
/// one, and `None` means every slot is taken.
pub proof fn lemma_find_free_props(inodes: Seq<Inode>, from: int)
    requires
        0 <= from <= inodes.len(),
    ensures
        match spec_find_free(inodes, from) {
            Some(i) => from <= i < inodes.len() && !inodes[i].is_used() && forall|j: int|
                from <= j < i ==> (#[trigger] inodes[j]).is_used(),
            None => forall|j: int| from <= j < inodes.len() ==> (#[trigger] inodes[j]).is_used(),
        },
    decreases inodes.len() - from,
{
    if from < inodes.len() && inodes[from].is_used() {
        lemma_find_free_props(inodes, from + 1);
    }
}

/// What a name-match scan result means: the slot it names is used, decodes
/// to the query, and no earlier slot at or after `from` does.
pub proof fn lemma_find_match_props(inodes: Seq<Inode>, name: Seq<u8>, from: int)
    requires
        0 <= from <= inodes.len(),
    ensures
        match spec_find_match(inodes, name, from) {
            Some(i) => from <= i < inodes.len() && inodes[i].is_used() && decoded_name(
                inodes[i].name@,
            ) == name,
            None => forall|j: int|
                from <= j < inodes.len() ==> !((#[trigger] inodes[j]).is_used() && decoded_name(
                    inodes[j].name@,
                ) == name),
        },
    decreases inodes.len() - from,
{
    if from < inodes.len() && !(inodes[from].is_used() && decoded_name(inodes[from].name@)
        == name) {
        lemma_find_match_props(inodes, name, from + 1);
    }
}

/// Slots that cannot match may be skipped without changing the scan result.
pub proof fn lemma_find_match_skip(inodes: Seq<Inode>, name: Seq<u8>, from: int, to: int)
    requires
        0 <= from <= to <= inodes.len(),
        forall|j: int|
            from <= j < to ==> !((#[trigger] inodes[j]).is_used() && decoded_name(inodes[j].name@)
                == name),
    ensures
        spec_find_match(inodes, name, from) == spec_find_match(inodes, name, to),
    decreases to - from,
{
    if from < to {
        lemma_find_match_skip(inodes, name, from + 1, to);
    }
}

/// Appending zero padding never changes the decoded name.
pub proof fn lemma_decoded_name_pad(buffer: Seq<u8>, pad: int)
    requires
        0 <= pad <= buffer.len(),
        forall|i: int| buffer.len() - pad <= i < buffer.len() ==> buffer[i] == 0,
    ensures
        decoded_name(buffer) == decoded_name(buffer.subrange(0, buffer.len() - pad)),
    decreases pad,
{
    if pad > 0 {
        assert(buffer.last() == 0);
        let shorter = buffer.drop_last();
        assert forall|i: int| shorter.len() - (pad - 1) <= i < shorter.len() implies shorter[i]
            == 0 by {
            assert(shorter[i] == buffer[i]);
        }
        lemma_decoded_name_pad(shorter, pad - 1);
        assert(shorter.subrange(0, buffer.len() - pad) =~= buffer.subrange(
            0,
            buffer.len() - pad,
        ));
    } else {
        assert(buffer.subrange(0, buffer.len() - pad) =~= buffer);
    }
}

/// Storing a name and decoding it again returns the name itself, provided
/// it fits the buffer and does not end in a zero byte (zero padding makes a
/// trailing zero indistinguishable from padding).
pub proof fn lemma_stored_name_round_trip(name: Seq<u8>)
    requires
        name.len() < NAME_BYTES,
        name.len() > 0 ==> name.last() != 0,
    ensures
        decoded_name(stored_name(name)) == name,
{
    let stored = stored_name(name);
    lemma_decoded_name_pad(stored, NAME_BYTES - name.len());
    assert(stored.subrange(0, name.len() as int) =~= name);
    if name.len() > 0 {
        assert(decoded_name(name) == name);
    }
}

/// A table with no used slot lists nothing.
pub proof fn lemma_list_used_empty(inodes: Seq<Inode>)
    requires
        forall|i: int| 0 <= i < inodes.len() ==> !(#[trigger] inodes[i]).is_used(),
    ensures
        spec_list_used(inodes) == Seq::<(u32, Inode)>::empty(),
    decreases inodes.len(),
{
    if inodes.len() > 0 {
        lemma_list_used_empty(inodes.drop_last());
    }
}

/// Builds the zero-padded name buffer for a query name, truncating it to
/// the effective maximum of `NAME_BYTES - 1` bytes.
pub fn make_name_buffer(name: &[u8]) -> (r: [u8; 32])
    ensures
        r@ == stored_name(name@),
{
    let mut buffer = [0u8; 32];
    let len = if name.len() < NAME_BYTES - 1 {
        name.len()
    } else {
        NAME_BYTES - 1
    };
    let mut i: usize = 0;
    while i < len
        invariant
            len <= name@.len(),
            len <= NAME_BYTES - 1,
            i <= len,
            len == if name@.len() < NAME_BYTES - 1 {
                name@.len() as int
            } else {
                NAME_BYTES - 1
            },
            buffer@.len() == NAME_BYTES,
            forall|j: int| 0 <= j < i ==> buffer@[j] == name@[j],
            forall|j: int| i <= j < NAME_BYTES ==> buffer@[j] == 0,
        decreases len - i,
    {
        buffer[i] = name[i];
        i = i + 1;
    }
    proof {
        assert(buffer@ =~= stored_name(name@));
    }
    buffer
}

/// Length of the name a stored buffer denotes: the buffer width minus the
/// trailing zero padding.
pub fn decoded_len(buffer: &[u8; 32]) -> (l: usize)
    ensures
        l <= NAME_BYTES,
        buffer@.subrange(0, l as int) == decoded_name(buffer@),
{
    let mut l: usize = NAME_BYTES;
    proof {
        assert(buffer@.subrange(0, NAME_BYTES as int) =~= buffer@);
    }
    while l > 0 && buffer[l - 1] == 0
        invariant
            l <= NAME_BYTES,
            buffer@.len() == NAME_BYTES,
            forall|j: int| l <= j < NAME_BYTES ==> buffer@[j] == 0,
            decoded_name(buffer@) == decoded_name(buffer@.subrange(0, l as int)),
        decreases l,
    {
        proof {
            lemma_decoded_name_pad(buffer@.subrange(0, l as int), 1);
            assert(buffer@.subrange(0, l as int).subrange(0, l - 1) =~= buffer@.subrange(
                0,
                l - 1,
            ));
        }
        l = l - 1;
    }
    proof {
        let prefix = buffer@.subrange(0, l as int);
        if l > 0 {
            assert(prefix.last() != 0);
            assert(decoded_name(prefix) == prefix);
        } else {
            assert(prefix =~= Seq::<u8>::empty());
        }
    }
    l
}

/// Whether the stored buffer decodes to exactly the query name.
pub fn name_matches(buffer: &[u8; 32], name: &[u8]) -> (r: bool)
    ensures
        r == (decoded_name(buffer@) == name@),
{
    let l = decoded_len(buffer);
    if l != name.len() {
        proof {
            assert(decoded_name(buffer@).len() == l);
        }
        return false;
    }
    let mut i: usize = 0;
    while i < l
        invariant
            l <= NAME_BYTES,
            buffer@.len() == NAME_BYTES,
            l == name@.len(),
            i <= l,
            buffer@.subrange(0, l as int) == decoded_name(buffer@),
            forall|j: int| 0 <= j < i ==> buffer@[j] == name@[j],
        decreases l - i,
    {
        if buffer[i] != name[i] {
            proof {
                assert(decoded_name(buffer@)[i as int] == buffer@[i as int]);
            }
            return false;
        }
        i = i + 1;
    }
    proof {
        assert(decoded_name(buffer@) =~= name@);
    }
    true
}

/// Scans the inode table in ascending slot order and returns the first free
/// slot, or `None` when every slot is taken.
pub fn find_free_inode(inodes: &Vec<Inode>) -> (r: Option<u32>)
    requires
        inodes@.len() <= u32::MAX,
        forall|j: int| 0 <= j < inodes@.len() ==> (#[trigger] inodes@[j]).flag_valid(),
    ensures
        match r {
            Some(i) => spec_find_free(inodes@, 0) == Some(i as int),
            None => spec_find_free(inodes@, 0) is None,
        },
{
    let mut i: usize = 0;
    while i < inodes.len()
        invariant
            inodes@.len() <= u32::MAX,
            i <= inodes@.len(),
            forall|j: int| 0 <= j < inodes@.len() ==> (#[trigger] inodes@[j]).flag_valid(),
            spec_find_free(inodes@, 0) == spec_find_free(inodes@, i as int),
        decreases inodes@.len() - i,
    {
        if inodes[i].used == 0 {
            return Some(i as u32);
        }
        i = i + 1;
    }
    None
}

/// Scans the inode table in ascending slot order and returns the first used
/// slot whose decoded name equals the query, or `None` when there is none.
pub fn find_by_name(inodes: &Vec<Inode>, name: &[u8]) -> (r: Option<u32>)
    requires
        inodes@.len() <= u32::MAX,
    ensures
        match r {
            Some(i) => spec_find_match(inodes@, name@, 0) == Some(i as int),
            None => spec_find_match(inodes@, name@, 0) is None,
        },
{
    let mut i: usize = 0;
    while i < inodes.len()
        invariant
            inodes@.len() <= u32::MAX,
            i <= inodes@.len(),
            spec_find_match(inodes@, name@, 0) == spec_find_match(inodes@, name@, i as int),
        decreases inodes@.len() - i,
    {
        if inodes[i].used == 1 {
            if name_matches(&inodes[i].name, name) {
                return Some(i as u32);
            }
        }
        i = i + 1;
    }
    None
}

/// Builds the descriptor record for a newly created file and overwrites the
/// slot with it: flag set, the query name zero-padded (and truncated to the
/// effective maximum, as stored names always are), the content length, and
/// the file's block run.
pub fn write_inode(
    inodes: &mut Vec<Inode>,
    idx: u32,
    name: &[u8],
    content_len: u32,
    start_block: u32,
    block_count: u32,
)
    requires
        idx < old(inodes)@.len(),
    ensures
        final(inodes)@.len() == old(inodes)@.len(),
        forall|j: int|
            0 <= j < old(inodes)@.len() && j != idx ==> final(inodes)@[j] == old(inodes)@[j],
        final(inodes)@[idx as int].used == 1,
        final(inodes)@[idx as int].name@ == stored_name(name@),
        final(inodes)@[idx as int].size == content_len,
        final(inodes)@[idx as int].start_block == start_block,
        final(inodes)@[idx as int].block_count == block_count,
{
    let record = Inode {
        used: 1,
        name: make_name_buffer(name),
        size: content_len,
        start_block,
        block_count,
    };
    inodes[idx as usize] = record;
}

/// Lists the used entries in ascending slot order, each with its slot index.
pub fn list_used(inodes: &Vec<Inode>) -> (r: Vec<(u32, Inode)>)
    requires
        inodes@.len() <= u32::MAX,
    ensures
        r@ == spec_list_used(inodes@),
{
    let mut out: Vec<(u32, Inode)> = Vec::new();
    let mut i: usize = 0;
    while i < inodes.len()
        invariant
            inodes@.len() <= u32::MAX,
            i <= inodes@.len(),
            out@ == spec_list_used(inodes@.subrange(0, i as int)),
        decreases inodes@.len() - i,
    {
        proof {
            assert(inodes@.subrange(0, i + 1).drop_last() =~= inodes@.subrange(0, i as int));
            assert(inodes@.subrange(0, i + 1).last() == inodes@[i as int]);
        }
        if inodes[i].used == 1 {
            out.push((i as u32, inodes[i]));
        }
        i = i + 1;
    }
    proof {
        assert(inodes@.subrange(0, inodes@.len() as int) =~= inodes@);
    }
    out
}

} // verus!
