use lib::{
    ext4_crc32c, BlockDevice, Ext4BlockGroup, Ext4Error, Ext4Inode, Ext4Superblock, BLOCK_SIZE,
    EXT4_CRC32_INIT, EXT4_INODE_IMAGE_SIZE, INODE_CHECKSUM_SPAN, SUPERBLOCK_SIZE,
};
use std::cell::RefCell;

struct MemDevice {
    bytes: RefCell<Vec<u8>>,
}

impl BlockDevice for MemDevice {
    fn read_offset(&self, offset: usize) -> Vec<u8> {
        let b = self.bytes.borrow();
        b[offset.min(b.len())..].to_vec()
    }
    fn write_offset(&self, offset: usize, data: &[u8]) {
        let mut b = self.bytes.borrow_mut();
        b[offset..offset + data.len()].copy_from_slice(data);
    }
}

fn put_u32(buf: &mut [u8], off: usize, v: u32) {
    buf[off..off + 4].copy_from_slice(&v.to_le_bytes());
}

fn put_u16(buf: &mut [u8], off: usize, v: u16) {
    buf[off..off + 2].copy_from_slice(&v.to_le_bytes());
}

fn superblock(inode_size: u16) -> Ext4Superblock {
    let mut buf = vec![0u8; SUPERBLOCK_SIZE];
    put_u32(&mut buf, 0, 8192);
    put_u32(&mut buf, 4, 65536);
    put_u32(&mut buf, 32, 32768);
    put_u32(&mut buf, 40, 2048);
    put_u16(&mut buf, 88, inode_size);
    for i in 0..16 {
        buf[104 + i] = 0x10 * (i as u8 % 16) + 3;
    }
    put_u16(&mut buf, 254, 64);
    Ext4Superblock::try_from(buf).unwrap()
}

fn sample_inode() -> Ext4Inode {
    let mut inode = Ext4Inode::default();
    inode.mode = 0o100644;
    inode.uid = 1000;
    inode.size = 12345;
    inode.atime = 1_700_000_000;
    inode.links_count = 1;
    inode.flags = 0x80000;
    for i in 0..15 {
        inode.block[i] = 0x1000 + i as u32;
    }
    inode.generation = 0xDEAD_BEEF;
    inode.osd2.l_i_checksum_lo = 0x1111;
    inode.osd2.l_i_uid_high = 7;
    inode.i_extra_isize = 32;
    inode.i_checksum_hi = 0x2222;
    inode.i_crtime = 42;
    inode
}

fn expected_crc(inode: &Ext4Inode, sb: &Ext4Superblock, inode_id: u32) -> u32 {
    let mut zeroed = *inode;
    zeroed.osd2.l_i_checksum_lo = 0;
    zeroed.i_checksum_hi = 0;
    let mut image = zeroed.to_bytes();
    image.resize(INODE_CHECKSUM_SPAN, 0);
    let uuid = sb.uuid();
    let mut c = ext4_crc32c(EXT4_CRC32_INIT, &uuid, 16);
    c = ext4_crc32c(c, &inode_id.to_le_bytes(), 4);
    c = ext4_crc32c(c, &inode.generation.to_le_bytes(), 4);
    ext4_crc32c(c, &image, sb.inode_size() as u32)
}

#[test]
fn inode_image_layout() {
    let inode = sample_inode();
    let bytes = inode.to_bytes();
    assert_eq!(bytes.len(), EXT4_INODE_IMAGE_SIZE);
    assert_eq!(&bytes[0..2], &0o100644u16.to_le_bytes());
    assert_eq!(&bytes[4..8], &12345u32.to_le_bytes());
    assert_eq!(&bytes[40..44], &0x1000u32.to_le_bytes());
    assert_eq!(&bytes[96..100], &0x100Eu32.to_le_bytes());
    assert_eq!(&bytes[100..104], &0xDEAD_BEEFu32.to_le_bytes());
    assert_eq!(&bytes[116 + 4..116 + 6], &7u16.to_le_bytes());
    assert_eq!(&bytes[0x7C..0x7E], &0x1111u16.to_le_bytes());
    assert_eq!(&bytes[0x80..0x82], &32u16.to_le_bytes());
    assert_eq!(&bytes[0x82..0x84], &0x2222u16.to_le_bytes());
    assert_eq!(&bytes[0x90..0x94], &42u32.to_le_bytes());
}

#[test]
fn inode_image_round_trip() {
    let inode = sample_inode();
    let back = Ext4Inode::try_from(&inode.to_bytes()[..]).unwrap();
    assert_eq!(back, inode);
    let raw: Vec<u8> = (0..200).map(|i| (i * 13 % 256) as u8).collect();
    let parsed = Ext4Inode::try_from(&raw[..]).unwrap();
    assert_eq!(parsed.to_bytes(), raw[..EXT4_INODE_IMAGE_SIZE].to_vec());
}

#[test]
fn inode_short_buffer_is_refused() {
    let raw = vec![0u8; EXT4_INODE_IMAGE_SIZE - 1];
    assert_eq!(Ext4Inode::try_from(&raw[..]).unwrap_err(), Ext4Error::BufferTooShort);
}

#[test]
fn checksum_value_large_inode() {
    let sb = superblock(256);
    let mut inode = sample_inode();
    inode.set_inode_checksum_value(&sb, 5, 0xABCD_1234);
    assert_eq!(inode.osd2.l_i_checksum_lo, 0x1234);
    assert_eq!(inode.i_checksum_hi, 0xABCD);
    assert_eq!(inode.get_checksum(&sb), 0xABCD_1234);
}

#[test]
fn checksum_value_small_inode() {
    let sb = superblock(128);
    let mut inode = sample_inode();
    inode.set_inode_checksum_value(&sb, 5, 0xABCD_1234);
    assert_eq!(inode.osd2.l_i_checksum_lo, 0x1234);
    assert_eq!(inode.i_checksum_hi, 0x2222);
    assert_eq!(inode.get_checksum(&sb), 0x1234);
}

#[test]
fn inode_checksum_large_inode() {
    let sb = superblock(256);
    let inode = sample_inode();
    let expected = expected_crc(&inode, &sb, 12);
    let mut work = inode;
    let c = work.get_inode_checksum(12, &sb);
    assert_eq!(c, expected);
    assert_eq!(work.osd2.l_i_checksum_lo, (expected & 0xFFFF) as u16);
    assert_eq!(work.i_checksum_hi, (expected >> 16) as u16);
    assert_eq!(work.get_checksum(&sb), expected);
    // everything but the checksum is unchanged
    let mut a = work;
    let mut b = inode;
    a.osd2.l_i_checksum_lo = 0;
    a.i_checksum_hi = 0;
    b.osd2.l_i_checksum_lo = 0;
    b.i_checksum_hi = 0;
    assert_eq!(a, b);
}

#[test]
fn inode_checksum_128_byte_inode() {
    let sb = superblock(128);
    let inode = sample_inode();
    let expected = expected_crc(&inode, &sb, 12);
    let mut work = inode;
    let c = work.get_inode_checksum(12, &sb);
    assert_eq!(c, expected & 0xFFFF);
    assert_eq!(work.osd2.l_i_checksum_lo, (expected & 0xFFFF) as u16);
    // the high half is zeroed for the computation and not set again
    assert_eq!(work.i_checksum_hi, 0);
    assert_eq!(work.get_checksum(&sb), expected & 0xFFFF);
}

#[test]
fn inode_checksum_depends_on_number_and_uuid() {
    let sb = superblock(256);
    let inode = sample_inode();
    let mut a = inode;
    let mut b = inode;
    assert_ne!(a.get_inode_checksum(12, &sb), b.get_inode_checksum(13, &sb));
}

#[test]
fn set_inode_checksum_is_idempotent_and_verifies() {
    let sb = superblock(256);
    let mut inode = sample_inode();
    inode.set_inode_checksum(&sb, 12);
    let once = inode;
    inode.set_inode_checksum(&sb, 12);
    assert_eq!(inode, once);
    // recomputing over the set inode gives the stored value
    let mut check = once;
    assert_eq!(check.get_inode_checksum(12, &sb), once.get_checksum(&sb));
}

#[test]
fn set_inode_checksum_ignores_old_checksum() {
    let sb = superblock(256);
    let mut a = sample_inode();
    let mut b = sample_inode();
    b.osd2.l_i_checksum_lo = 0x9999;
    b.i_checksum_hi = 0x8888;
    a.set_inode_checksum(&sb, 3);
    b.set_inode_checksum(&sb, 3);
    assert_eq!(a, b);
}

#[test]
fn inode_table_pos_values() {
    assert_eq!(Ext4Inode::inode_table_pos(10, 2, 256), Ok(10 * BLOCK_SIZE + 512));
    assert_eq!(Ext4Inode::inode_table_pos(0, 0, 128), Ok(0));
    assert_eq!(Ext4Inode::inode_table_pos(u64::MAX, 0, 256), Err(Ext4Error::PositionOverflow));
}

fn device_with_group0(table_block: u32, sb: &Ext4Superblock) -> MemDevice {
    let dev = MemDevice { bytes: RefCell::new(vec![0u8; 16 * BLOCK_SIZE]) };
    let mut raw = [0u8; 64];
    raw[8..12].copy_from_slice(&table_block.to_le_bytes());
    let mut bg = Ext4BlockGroup::try_from(&raw[..]).unwrap();
    bg.sync_to_disk_with_csum(&dev, 0, sb).unwrap();
    dev
}

#[test]
fn inode_disk_position() {
    let sb = superblock(256);
    let dev = device_with_group0(10, &sb);
    let inode = sample_inode();
    assert_eq!(inode.get_inode_disk_pos(&sb, &dev, 3), Ok(10 * BLOCK_SIZE + 2 * 256));
    assert_eq!(inode.get_inode_disk_pos(&sb, &dev, 1), Ok(10 * BLOCK_SIZE));
}

#[test]
fn inode_disk_position_short_device() {
    let sb = superblock(256);
    let dev = MemDevice { bytes: RefCell::new(vec![0u8; BLOCK_SIZE + 10]) };
    let inode = sample_inode();
    assert_eq!(inode.get_inode_disk_pos(&sb, &dev, 3), Err(Ext4Error::BufferTooShort));
}

#[test]
fn inode_sync_with_checksum_writes_its_slot() {
    let sb = superblock(256);
    let dev = device_with_group0(10, &sb);
    let mut inode = sample_inode();
    inode.sync_inode_to_disk_with_csum(&dev, &sb, 3).unwrap();
    let pos = 10 * BLOCK_SIZE + 2 * 256;
    let bytes = dev.bytes.borrow();
    let stored = Ext4Inode::try_from(&bytes[pos..pos + EXT4_INODE_IMAGE_SIZE]).unwrap();
    assert_eq!(stored, inode);
    let expected = expected_crc(&sample_inode(), &sb, 3);
    assert_eq!(stored.get_checksum(&sb), expected);
    // the neighbouring slots are untouched
    assert!(bytes[pos - 256..pos].iter().all(|b| *b == 0));
    assert!(bytes[pos + EXT4_INODE_IMAGE_SIZE..pos + 256].iter().all(|b| *b == 0));
}
