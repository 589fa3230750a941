use flatfs::codec::{
    decode_inode, encode_inode, encode_superblock, read_superblock, volume_from_bytes,
    volume_to_bytes,
};
use flatfs::errors::FsError;
use flatfs::types::{Inode, Superblock};
use flatfs::volume::{cat, create, ls};

#[test]
fn superblock_encodes_to_twenty_four_bytes_and_back() {
    let sb = Superblock {
        total_size: 512 * 1024,
        block_size: 512,
        total_blocks: 1024,
        total_inodes: 128,
        used_blocks: 3,
        used_inodes: 2,
    };
    let bytes = encode_superblock(&sb);
    assert_eq!(bytes.len(), 24);
    // Little-endian: 512 = 0x200 at offset 4.
    assert_eq!(&bytes[4..8], &[0x00, 0x02, 0x00, 0x00]);
    let back = read_superblock(&bytes).unwrap();
    assert_eq!(back, sb);
}

#[test]
fn short_superblock_is_corrupt() {
    assert_eq!(read_superblock(&[0u8; 23]), Err(FsError::CorruptRecord));
}

#[test]
fn inode_encodes_to_forty_five_bytes_and_back() {
    let mut name = [0u8; 32];
    name[..5].copy_from_slice(b"a.txt");
    let inode = Inode {
        used: 1,
        name,
        size: 5,
        start_block: 7,
        block_count: 1,
    };
    let bytes = encode_inode(&inode);
    assert_eq!(bytes.len(), 45);
    assert_eq!(bytes[0], 1);
    assert_eq!(&bytes[1..6], b"a.txt");
    let back = decode_inode(&bytes).unwrap();
    assert_eq!(back.used, inode.used);
    assert_eq!(back.name, inode.name);
    assert_eq!(back.size, inode.size);
    assert_eq!(back.start_block, inode.start_block);
    assert_eq!(back.block_count, inode.block_count);
}

#[test]
fn inode_with_invalid_flag_is_corrupt() {
    let mut bytes = vec![0u8; 45];
    bytes[0] = 2;
    assert!(matches!(decode_inode(&bytes), Err(FsError::CorruptRecord)));
    assert!(matches!(decode_inode(&[0u8; 44]), Err(FsError::CorruptRecord)));
}

#[test]
fn volume_image_has_the_declared_layout_size() {
    let v = flatfs::volume::format(512, 1024, 128);
    let bytes = volume_to_bytes(&v);
    // superblock + 128 * 45 table bytes + 128 bitmap bytes + data region.
    assert_eq!(bytes.len(), 24 + 128 * 45 + 128 + 512 * 1024);
}

#[test]
fn volume_round_trips_through_its_image() {
    let mut v = flatfs::volume::format(16, 32, 4);
    assert!(create(&mut v, b"a.txt", b"hello world, hello!").is_ok());
    let bytes = volume_to_bytes(&v);
    let back = volume_from_bytes(&bytes).unwrap();
    assert_eq!(back.superblock, v.superblock);
    assert_eq!(back.bitmap.bits, v.bitmap.bits);
    assert_eq!(back.data, v.data);
    assert_eq!(back.inodes.len(), v.inodes.len());
    assert_eq!(cat(&back, b"a.txt"), Some(b"hello world, hello!".to_vec()));
    assert_eq!(ls(&back).len(), 1);
}

#[test]
fn truncated_volume_image_is_corrupt() {
    let v = flatfs::volume::format(16, 32, 4);
    let bytes = volume_to_bytes(&v);
    assert!(matches!(
        volume_from_bytes(&bytes[..bytes.len() - 1]),
        Err(FsError::CorruptRecord)
    ));
    assert!(matches!(
        volume_from_bytes(&bytes[..10]),
        Err(FsError::CorruptRecord)
    ));
}

#[test]
fn volume_image_with_invalid_flag_byte_is_corrupt() {
    let v = flatfs::volume::format(16, 32, 4);
    let mut bytes = volume_to_bytes(&v);
    // The first inode record starts right after the superblock.
    bytes[24] = 2;
    assert!(matches!(volume_from_bytes(&bytes), Err(FsError::CorruptRecord)));
}
