//! The on-disk structures of ext4 (superblock, block group descriptors,
//! inodes), their little-endian images, their CRC-32C checksums and their
//! positions on a block device.
pub mod block_group;
pub mod bytes;
pub mod crc;
pub mod device;
pub mod file;
pub mod inode;
pub mod superblock;

pub use block_group::{Ext4BlockGroup, BLOCK_GROUP_DESC_SIZE};
pub use crc::{ext4_crc32c, EXT4_CRC32_INIT};
pub use device::{BlockDevice, Ext4Error, BASE_OFFSET, BLOCK_SIZE};
pub use file::{Ext4FileNew, Ext4MountPoint, SeekFrom};
pub use inode::{Ext4Inode, Linux2, EXT4_INODE_IMAGE_SIZE, INODE_CHECKSUM_SPAN};
pub use superblock::{Ext4Superblock, EXT4_MIN_BLOCK_GROUP_DESCRIPTOR_SIZE, SUPERBLOCK_SIZE};
