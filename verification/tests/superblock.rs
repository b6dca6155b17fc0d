use lib::{
    BlockDevice, Ext4Error, Ext4Superblock, BASE_OFFSET, EXT4_MIN_BLOCK_GROUP_DESCRIPTOR_SIZE,
    SUPERBLOCK_SIZE,
};
use std::cell::RefCell;

struct MemDevice {
    bytes: RefCell<Vec<u8>>,
}

impl BlockDevice for MemDevice {
    fn read_offset(&self, offset: usize) -> Vec<u8> {
        self.bytes.borrow()[offset..].to_vec()
    }
    fn write_offset(&self, offset: usize, data: &[u8]) {
        let mut b = self.bytes.borrow_mut();
        b[offset..offset + data.len()].copy_from_slice(data);
    }
}

fn put_u32(buf: &mut [u8], off: usize, v: u32) {
    buf[off..off + 4].copy_from_slice(&v.to_le_bytes());
}

fn put_u16(buf: &mut [u8], off: usize, v: u16) {
    buf[off..off + 2].copy_from_slice(&v.to_le_bytes());
}

fn sample_image() -> Vec<u8> {
    let mut buf: Vec<u8> = (0..SUPERBLOCK_SIZE).map(|i| (i * 7 % 251) as u8).collect();
    put_u32(&mut buf, 0, 8192); // inodes_count
    put_u32(&mut buf, 4, 32768 * 3 + 1); // blocks_count_lo
    put_u32(&mut buf, 20, 0); // first_data_block
    put_u32(&mut buf, 32, 32768); // blocks_per_group
    put_u32(&mut buf, 40, 2048); // inodes_per_group
    put_u16(&mut buf, 56, 0xEF53); // magic
    put_u16(&mut buf, 88, 256); // inode_size
    for i in 0..16 {
        buf[104 + i] = 0xA0 + i as u8; // uuid
    }
    put_u16(&mut buf, 254, 64); // desc_size
    put_u32(&mut buf, 336, 0); // blocks_count_hi
    buf
}

#[test]
fn superblock_fields_at_their_offsets() {
    let sb = Ext4Superblock::try_from(sample_image()).unwrap();
    assert_eq!(sb.total_inodes(), 8192);
    assert_eq!(sb.blocks_per_group(), 32768);
    assert_eq!(sb.inodes_per_group(), 2048);
    assert_eq!(sb.inode_size(), 256);
    assert_eq!(sb.first_data_block(), 0);
    assert_eq!(sb.raw_desc_size(), 64);
    assert_eq!(sb.desc_size(), 64);
    let uuid = sb.uuid();
    for i in 0..16 {
        assert_eq!(uuid[i], 0xA0 + i as u8);
    }
}

#[test]
fn superblock_image_round_trip() {
    let image = sample_image();
    let sb = Ext4Superblock::try_from(image.clone()).unwrap();
    assert_eq!(sb.to_bytes(), image);
    let again = Ext4Superblock::try_from(sb.to_bytes()).unwrap();
    assert_eq!(again, sb);
}

#[test]
fn superblock_uses_first_1024_bytes_only() {
    let mut image = sample_image();
    image.extend_from_slice(&[0xFF; 100]);
    let sb = Ext4Superblock::try_from(image.clone()).unwrap();
    assert_eq!(sb.to_bytes(), image[..SUPERBLOCK_SIZE].to_vec());
}

#[test]
fn superblock_short_buffer_is_refused() {
    let mut image = sample_image();
    image.truncate(SUPERBLOCK_SIZE - 1);
    assert_eq!(Ext4Superblock::try_from(image).unwrap_err(), Ext4Error::BufferTooShort);
    assert_eq!(Ext4Superblock::try_from(Vec::new()).unwrap_err(), Ext4Error::BufferTooShort);
}

#[test]
fn block_groups_count_rounds_up() {
    let sb = Ext4Superblock::try_from(sample_image()).unwrap();
    assert_eq!(sb.block_groups_count(), 4);

    let mut image = sample_image();
    put_u32(&mut image, 4, 32768 * 3);
    let sb = Ext4Superblock::try_from(image).unwrap();
    assert_eq!(sb.block_groups_count(), 3);
}

#[test]
fn block_groups_count_uses_high_half() {
    let mut image = sample_image();
    put_u32(&mut image, 4, 0);
    put_u32(&mut image, 336, 1);
    let sb = Ext4Superblock::try_from(image).unwrap();
    // 2^32 blocks in groups of 2^15 blocks.
    assert_eq!(sb.block_groups_count(), 131072);
}

#[test]
fn block_groups_count_one_block_per_group() {
    let mut image = sample_image();
    put_u32(&mut image, 32, 1);
    put_u32(&mut image, 4, 5);
    let sb = Ext4Superblock::try_from(image).unwrap();
    assert_eq!(sb.block_groups_count(), 5);
}

#[test]
fn block_groups_count_starts_at_first_data_block() {
    let mut image = sample_image();
    put_u32(&mut image, 4, 65537);
    put_u32(&mut image, 20, 1);
    put_u32(&mut image, 32, 8192);
    let sb = Ext4Superblock::try_from(image).unwrap();
    assert_eq!(sb.block_groups_count(), 8);

    let mut image = sample_image();
    put_u32(&mut image, 4, 65538);
    put_u32(&mut image, 20, 1);
    put_u32(&mut image, 32, 8192);
    let sb = Ext4Superblock::try_from(image).unwrap();
    assert_eq!(sb.block_groups_count(), 9);
}

#[test]
fn desc_size_has_a_minimum() {
    let mut image = sample_image();
    put_u16(&mut image, 254, 0);
    let sb = Ext4Superblock::try_from(image).unwrap();
    assert_eq!(sb.desc_size(), EXT4_MIN_BLOCK_GROUP_DESCRIPTOR_SIZE);
    assert_eq!(sb.desc_size(), 32);

    let mut image = sample_image();
    put_u16(&mut image, 254, 31);
    let sb = Ext4Superblock::try_from(image).unwrap();
    assert_eq!(sb.desc_size(), 32);

    let mut image = sample_image();
    put_u16(&mut image, 254, 32);
    let sb = Ext4Superblock::try_from(image).unwrap();
    assert_eq!(sb.desc_size(), 32);
}

#[test]
fn superblock_sync_writes_at_base_offset() {
    let sb = Ext4Superblock::try_from(sample_image()).unwrap();
    let dev = MemDevice { bytes: RefCell::new(vec![0u8; 4096]) };
    assert!(sb.sync_super_block_to_disk(&dev).is_ok());
    let bytes = dev.bytes.borrow();
    assert_eq!(&bytes[BASE_OFFSET..BASE_OFFSET + SUPERBLOCK_SIZE], &sample_image()[..]);
    assert!(bytes[..BASE_OFFSET].iter().all(|b| *b == 0));
    let read = Ext4Superblock::try_from(bytes[BASE_OFFSET..].to_vec()).unwrap();
    assert_eq!(read, sb);
}
