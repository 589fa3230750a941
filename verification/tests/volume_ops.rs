use flatfs::allocator::find_free_block;
use flatfs::errors::FsError;
use flatfs::volume::{cat, check_structural, create, ls};

#[test]
fn fresh_volume_counters_zero_and_list_empty() {
    let v = flatfs::volume::format(512, 1024, 128);
    assert_eq!(v.superblock.used_blocks, 0);
    assert_eq!(v.superblock.used_inodes, 0);
    assert!(ls(&v).is_empty());
}

#[test]
fn header_arithmetic_holds_for_default_capacities() {
    let v = flatfs::volume::format(512, 1024, 128);
    assert_eq!(v.superblock.total_size, 512 * 1024);
    assert_eq!(
        v.superblock.total_size,
        v.superblock.block_size * v.superblock.total_blocks
    );
}

#[test]
fn create_then_cat_returns_exact_content() {
    let mut v = flatfs::volume::format(512, 1024, 128);
    assert!(create(&mut v, b"a.txt", b"hello").is_ok());
    let entries = ls(&v);
    assert_eq!(entries.len(), 1);
    assert_eq!(entries[0].0, 0);
    assert_eq!(entries[0].1.size, 5);
    assert_eq!(entries[0].1.block_count, 1);
    assert_eq!(cat(&v, b"a.txt"), Some(b"hello".to_vec()));
    assert_eq!(cat(&v, b"missing"), None);
}

#[test]
fn scenario_two_files_listed_in_slot_order() {
    let mut v = flatfs::volume::format(512, 1024, 128);
    assert!(create(&mut v, b"a.txt", b"hello").is_ok());
    let big = vec![7u8; 600];
    assert!(create(&mut v, b"b.txt", &big).is_ok());
    let entries = ls(&v);
    assert_eq!(entries.len(), 2);
    assert!(entries[0].0 < entries[1].0);
    assert_eq!(entries[0].1.size, 5);
    assert_eq!(entries[1].1.size, 600);
    assert_eq!(entries[1].1.block_count, 2);
    assert_eq!(cat(&v, b"a.txt"), Some(b"hello".to_vec()));
    assert_eq!(cat(&v, b"b.txt"), Some(big));
    assert_eq!(v.superblock.used_blocks, 3);
    assert_eq!(v.superblock.used_inodes, 2);
}

#[test]
fn zero_length_content_takes_one_block() {
    let mut v = flatfs::volume::format(512, 1024, 128);
    assert!(create(&mut v, b"empty", b"").is_ok());
    let entries = ls(&v);
    assert_eq!(entries[0].1.size, 0);
    assert_eq!(entries[0].1.block_count, 1);
    assert_eq!(v.superblock.used_blocks, 1);
    assert_eq!(cat(&v, b"empty"), Some(Vec::new()));
}

#[test]
fn block_accounting_at_block_size_boundaries() {
    let mut v = flatfs::volume::format(512, 1024, 128);
    assert!(create(&mut v, b"exact", &vec![1u8; 512]).is_ok());
    assert!(create(&mut v, b"over", &vec![2u8; 513]).is_ok());
    let entries = ls(&v);
    assert_eq!(entries[0].1.block_count, 1);
    assert_eq!(entries[1].1.block_count, 2);
}

#[test]
fn multi_block_binary_content_round_trips_exactly() {
    let mut v = flatfs::volume::format(16, 64, 4);
    // 40 bytes spread over three 16-byte blocks, zeros included.
    let content: Vec<u8> = (0..40u32).map(|i| (i * 7 % 256) as u8).collect();
    assert!(create(&mut v, b"bin", &content).is_ok());
    let entries = ls(&v);
    assert_eq!(entries[0].1.block_count, 3);
    assert_eq!(entries[0].1.size, 40);
    assert_eq!(cat(&v, b"bin"), Some(content));
}

#[test]
fn inode_exhaustion_fails_without_mutation() {
    let mut v = flatfs::volume::format(16, 8, 2);
    assert!(create(&mut v, b"a", b"x").is_ok());
    assert!(create(&mut v, b"b", b"y").is_ok());
    let bits_before = v.bitmap.bits.clone();
    let sb_before = v.superblock;
    let r = create(&mut v, b"c", b"z");
    assert_eq!(r, Err(FsError::OutOfSpace));
    assert_eq!(v.bitmap.bits, bits_before);
    assert_eq!(v.superblock, sb_before);
    assert_eq!(ls(&v).len(), 2);
}

#[test]
fn block_exhaustion_fails_without_mutation() {
    let mut v = flatfs::volume::format(4, 2, 4);
    let bits_before = v.bitmap.bits.clone();
    let r = create(&mut v, b"big", &vec![9u8; 9]);
    assert_eq!(r, Err(FsError::OutOfSpace));
    assert_eq!(v.bitmap.bits, bits_before);
    assert_eq!(v.superblock.used_blocks, 0);
    assert_eq!(v.superblock.used_inodes, 0);
}

#[test]
fn fragmented_allocation_is_selected_first_fit_and_refused() {
    let mut v = flatfs::volume::format(16, 16, 4);
    // Poke gaps into the bitmap by hand: blocks 0 and 2 allocated, 1 free.
    // The volume stays structurally valid, but the bitmap is no longer the
    // prefix shape the core itself always maintains.
    v.bitmap.bits[0] = 0b0000_0101;
    v.superblock.used_blocks = 2;
    assert!(check_structural(&v));

    // A two-block content makes the first-fit scan pick the non-adjacent
    // blocks 1 and 3.
    let content = vec![5u8; 20];
    let (blocks, _) = find_free_block(&v.bitmap, &v.superblock, content.len()).unwrap();
    assert_eq!(blocks, vec![1, 3]);

    // The writer and the reader both address a file as a contiguous run
    // from its start block, so create must refuse the fragmented run
    // loudly instead of writing bytes a read would never find.
    let bits_before = v.bitmap.bits.clone();
    let sb_before = v.superblock;
    let r = create(&mut v, b"frag", &content);
    assert_eq!(r, Err(FsError::Fragmented));
    assert_eq!(v.bitmap.bits, bits_before);
    assert_eq!(v.superblock, sb_before);
}

#[test]
fn single_block_create_on_fragmented_bitmap_still_works() {
    let mut v = flatfs::volume::format(16, 16, 4);
    v.bitmap.bits[0] = 0b0000_0101;
    v.superblock.used_blocks = 2;
    // One block needs no contiguity: the first free block (index 1) serves.
    assert!(create(&mut v, b"one", b"hi").is_ok());
    assert_eq!(cat(&v, b"one"), Some(b"hi".to_vec()));
    let entries = ls(&v);
    assert_eq!(entries[0].1.start_block, 1);
}

#[test]
fn long_names_are_truncated_to_thirty_one_bytes() {
    let mut v = flatfs::volume::format(512, 64, 4);
    let long_name = [b'n'; 40];
    assert!(create(&mut v, &long_name, b"data").is_ok());
    // The stored name keeps only the first 31 bytes.
    assert_eq!(cat(&v, &long_name[..31]), Some(b"data".to_vec()));
    assert_eq!(cat(&v, &long_name), None);
}

#[test]
fn duplicate_names_resolve_to_first_slot() {
    let mut v = flatfs::volume::format(512, 64, 4);
    assert!(create(&mut v, b"dup", b"first").is_ok());
    assert!(create(&mut v, b"dup", b"second").is_ok());
    assert_eq!(cat(&v, b"dup"), Some(b"first".to_vec()));
}

#[test]
fn check_structural_accepts_fresh_and_rejects_corrupt() {
    let mut v = flatfs::volume::format(512, 64, 4);
    assert!(check_structural(&v));
    v.superblock.total_size += 1;
    assert!(!check_structural(&v));
}

#[test]
fn error_descriptions_are_distinct() {
    let kinds = [
        FsError::VolumeMissing,
        FsError::OutOfSpace,
        FsError::IOFailure,
        FsError::CorruptRecord,
        FsError::Fragmented,
    ];
    for a in 0..kinds.len() {
        for b in 0..kinds.len() {
            if a != b {
                assert_ne!(kinds[a].describe(), kinds[b].describe());
            }
        }
    }
}
