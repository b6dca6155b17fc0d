use lib::{
    ext4_crc32c, BlockDevice, Ext4BlockGroup, Ext4Error, Ext4Superblock, BLOCK_GROUP_DESC_SIZE,
    BLOCK_SIZE, EXT4_CRC32_INIT, SUPERBLOCK_SIZE,
};
use std::cell::RefCell;

struct MemDevice {
    bytes: RefCell<Vec<u8>>,
}

impl BlockDevice for MemDevice {
    fn read_offset(&self, offset: usize) -> Vec<u8> {
        let b = self.bytes.borrow();
        b[offset.min(b.len())..].to_vec()
    }
    fn write_offset(&self, offset: usize, data: &[u8]) {
        let mut b = self.bytes.borrow_mut();
        b[offset..offset + data.len()].copy_from_slice(data);
    }
}

fn put_u32(buf: &mut [u8], off: usize, v: u32) {
    buf[off..off + 4].copy_from_slice(&v.to_le_bytes());
}

fn put_u16(buf: &mut [u8], off: usize, v: u16) {
    buf[off..off + 2].copy_from_slice(&v.to_le_bytes());
}

fn superblock(first_data_block: u32, desc_size: u16) -> Ext4Superblock {
    let mut buf = vec![0u8; SUPERBLOCK_SIZE];
    put_u32(&mut buf, 20, first_data_block);
    put_u32(&mut buf, 32, 8192);
    put_u32(&mut buf, 40, 2048);
    put_u16(&mut buf, 88, 256);
    for i in 0..16 {
        buf[104 + i] = 0x5A ^ (i as u8 * 17);
    }
    put_u16(&mut buf, 254, desc_size);
    Ext4Superblock::try_from(buf).unwrap()
}

fn sample_raw() -> Vec<u8> {
    (0..BLOCK_GROUP_DESC_SIZE).map(|i| (i * 29 % 256) as u8).collect()
}

fn expected_checksum(bg: &Ext4BlockGroup, sb: &Ext4Superblock, bgid: u32) -> u16 {
    let mut image = bg.to_bytes();
    image[0x1E] = 0;
    image[0x1F] = 0;
    let uuid = sb.uuid();
    let mut c = ext4_crc32c(EXT4_CRC32_INIT, &uuid, 16);
    c = ext4_crc32c(c, &bgid.to_le_bytes(), 4);
    c = ext4_crc32c(c, &image, sb.desc_size() as u32);
    (c & 0xFFFF) as u16
}

#[test]
fn block_group_image_round_trip() {
    let raw = sample_raw();
    let bg = Ext4BlockGroup::try_from(&raw[..]).unwrap();
    assert_eq!(bg.to_bytes(), raw);
    assert_eq!(bg.checksum(), u16::from_le_bytes([raw[0x1E], raw[0x1F]]));
    let lo = u32::from_le_bytes([raw[8], raw[9], raw[10], raw[11]]) as u64;
    let hi = u32::from_le_bytes([raw[0x28], raw[0x29], raw[0x2A], raw[0x2B]]) as u64;
    assert_eq!(bg.inode_table_first_block(&superblock(0, 64)), (hi << 32) | lo);
}

#[test]
fn inode_table_high_half_only_for_64_byte_descriptors() {
    let mut raw = vec![0u8; BLOCK_GROUP_DESC_SIZE];
    raw[8..12].copy_from_slice(&100u32.to_le_bytes());
    raw[0x28..0x2C].copy_from_slice(&2u32.to_le_bytes());
    let bg = Ext4BlockGroup::try_from(&raw[..]).unwrap();
    assert_eq!(bg.inode_table_first_block(&superblock(0, 64)), (2u64 << 32) | 100);
    assert_eq!(bg.inode_table_first_block(&superblock(0, 32)), 100);
    assert_eq!(bg.inode_table_first_block(&superblock(0, 0)), 100);
}

#[test]
fn block_group_short_buffer_is_refused() {
    let raw = vec![0u8; BLOCK_GROUP_DESC_SIZE - 1];
    assert_eq!(Ext4BlockGroup::try_from(&raw[..]).unwrap_err(), Ext4Error::BufferTooShort);
    assert_eq!(Ext4BlockGroup::decode_at(&sample_raw(), 1).unwrap_err(), Ext4Error::BufferTooShort);
    assert_eq!(Ext4BlockGroup::decode_at(&sample_raw(), 100).unwrap_err(), Ext4Error::BufferTooShort);
}

#[test]
fn decode_at_offset() {
    let mut block = vec![0u8; 200];
    block[100..164].copy_from_slice(&sample_raw());
    let bg = Ext4BlockGroup::decode_at(&block, 100).unwrap();
    assert_eq!(bg.to_bytes(), sample_raw());
}

#[test]
fn block_group_checksum_value_and_no_change() {
    let sb = superblock(0, 64);
    let raw = sample_raw();
    let mut bg = Ext4BlockGroup::try_from(&raw[..]).unwrap();
    let c = bg.get_block_group_checksum(7, &sb);
    assert_eq!(bg.to_bytes(), raw);
    assert_eq!(c, expected_checksum(&bg, &sb, 7));
}

#[test]
fn block_group_checksum_covers_desc_size_bytes() {
    // with the minimum descriptor size only the first 32 bytes count
    let sb = superblock(0, 0);
    let raw = sample_raw();
    let mut a = Ext4BlockGroup::try_from(&raw[..]).unwrap();
    let mut raw2 = raw.clone();
    raw2[40] ^= 0xFF;
    let mut b = Ext4BlockGroup::try_from(&raw2[..]).unwrap();
    assert_eq!(a.get_block_group_checksum(1, &sb), b.get_block_group_checksum(1, &sb));
    let sb64 = superblock(0, 64);
    assert_ne!(a.get_block_group_checksum(1, &sb64), b.get_block_group_checksum(1, &sb64));
}

#[test]
fn set_block_group_checksum_verifies() {
    let sb = superblock(0, 64);
    let mut bg = Ext4BlockGroup::try_from(&sample_raw()[..]).unwrap();
    bg.set_block_group_checksum(3, &sb);
    let stored = bg.checksum();
    assert_eq!(stored, expected_checksum(&bg, &sb, 3));
    assert_eq!(bg.get_block_group_checksum(3, &sb), stored);
    let before = bg.to_bytes();
    bg.set_block_group_checksum(3, &sb);
    assert_eq!(bg.to_bytes(), before);
}

#[test]
fn descriptor_locations() {
    let sb = superblock(0, 64);
    assert_eq!(Ext4BlockGroup::descriptor_location(&sb, 0), (BLOCK_SIZE, 0));
    assert_eq!(Ext4BlockGroup::descriptor_location(&sb, 1), (BLOCK_SIZE, 64));
    assert_eq!(Ext4BlockGroup::descriptor_location(&sb, 63), (BLOCK_SIZE, 63 * 64));
    assert_eq!(Ext4BlockGroup::descriptor_location(&sb, 64), (2 * BLOCK_SIZE, 0));
    let sb1 = superblock(1, 32);
    assert_eq!(Ext4BlockGroup::descriptor_location(&sb1, 0), (2 * BLOCK_SIZE, 0));
    assert_eq!(Ext4BlockGroup::descriptor_location(&sb1, 130), (3 * BLOCK_SIZE, 2 * 32));
}

#[test]
fn sync_then_load_gives_back_the_descriptor() {
    let sb = superblock(0, 64);
    let dev = MemDevice { bytes: RefCell::new(vec![0u8; 4 * BLOCK_SIZE]) };
    let mut bg = Ext4BlockGroup::try_from(&sample_raw()[..]).unwrap();
    bg.sync_to_disk_with_csum(&dev, 5, &sb).unwrap();
    let loaded = Ext4BlockGroup::load(&dev, &sb, 5).unwrap();
    assert_eq!(loaded.to_bytes(), bg.to_bytes());
    assert_eq!(loaded.checksum(), expected_checksum(&bg, &sb, 5));
    // it went to block 1 at offset 5 * 64
    let bytes = dev.bytes.borrow();
    assert_eq!(&bytes[BLOCK_SIZE + 320..BLOCK_SIZE + 384], &bg.to_bytes()[..]);
}

#[test]
fn sync_without_checksum_writes_image() {
    let sb = superblock(0, 64);
    let dev = MemDevice { bytes: RefCell::new(vec![0u8; 4 * BLOCK_SIZE]) };
    let bg = Ext4BlockGroup::try_from(&sample_raw()[..]).unwrap();
    assert!(bg.sync_block_group_to_disk(&dev, 2, &sb).is_ok());
    let bytes = dev.bytes.borrow();
    assert_eq!(&bytes[BLOCK_SIZE + 128..BLOCK_SIZE + 192], &sample_raw()[..]);
}

#[test]
fn load_from_short_device_fails() {
    let sb = superblock(0, 64);
    let dev = MemDevice { bytes: RefCell::new(vec![0u8; BLOCK_SIZE + 100]) };
    assert_eq!(Ext4BlockGroup::load(&dev, &sb, 1).unwrap_err(), Ext4Error::BufferTooShort);
    assert!(Ext4BlockGroup::load(&dev, &sb, 0).is_ok());
}
