//! Block group descriptors: their 64-byte image, their checksum, and
//! where each one lives on the device.
use vstd::prelude::*;
use crate::bytes::{
    le_u16, le_u32, lemma_le_u16_bytes, lemma_le_u16_of_bytes, lemma_le_u32_bytes, lemma_le_u32_of_bytes, lemma_u16_bytes_injective,
    lemma_u32_bytes_injective, push_u32_le, read_u16, read_u32, u16_byte, u16_byte_at, u32_byte,
    u32_byte_at, u32_le_seq,
};
use crate::crc::{crc32c, ext4_crc32c, lemma_crc32c_append, EXT4_CRC32_INIT};
use crate::device::{BlockDevice, Ext4Error, BLOCK_SIZE};
use crate::superblock::{Ext4Superblock, EXT4_MIN_DESC_SIZE_64BIT};

verus! {

/// Size in bytes of a block group descriptor's image.
pub const BLOCK_GROUP_DESC_SIZE: usize = 64;

/// A block group descriptor.
#[derive(Debug, Default, Clone, Copy)]
pub struct Ext4BlockGroup {
    block_bitmap_lo: u32,            // block bitmap block
    inode_bitmap_lo: u32,            // inode bitmap block
    inode_table_first_block_lo: u32, // inode table block
    free_blocks_count_lo: u16,       // number of free blocks
    free_inodes_count_lo: u16,       // number of free inodes
    used_dirs_count_lo: u16,         // number of directories
    flags: u16,                      // EXT4_BG_flags (INODE_UNINIT, etc)
    exclude_bitmap_lo: u32,          // snapshot exclusion bitmap
    block_bitmap_csum_lo: u16,       // crc32c(s_uuid+grp_num+bbitmap) LE
    inode_bitmap_csum_lo: u16,       // crc32c(s_uuid+grp_num+ibitmap) LE
    itable_unused_lo: u16,           // number of unused inodes
    checksum: u16,                   // crc16(sb_uuid+group+desc)

    block_bitmap_hi: u32,            // block bitmap block MSB
    inode_bitmap_hi: u32,            // inode bitmap block MSB
    inode_table_first_block_hi: u32, // inode table block MSB
    free_blocks_count_hi: u16,       // number of free blocks MSB
    free_inodes_count_hi: u16,       // number of free inodes MSB
    used_dirs_count_hi: u16,         // number of directories MSB
    itable_unused_hi: u16,           // number of unused inodes MSB
    exclude_bitmap_hi: u32,          // snapshot exclusion bitmap MSB
    block_bitmap_csum_hi: u16,       // crc32c(s_uuid+grp_num+bbitmap) BE
    inode_bitmap_csum_hi: u16,       // crc32c(s_uuid+grp_num+ibitmap) BE
    reserved: u32,                   // padding
}

impl Ext4BlockGroup {
    /// Byte `i` of the 64-byte on-disk image.
    #[verifier::opaque]
    pub closed spec fn spec_byte(self, i: int) -> u8 {
        if i < 32 {
            self.image_part0(i)
        } else {
            self.image_part1(i)
        }
    }

    #[verifier::opaque]
    spec fn image_part0(self, i: int) -> u8 {
        if i < 4 {
            u32_byte(self.block_bitmap_lo, i)
        } else if i < 8 {
            u32_byte(self.inode_bitmap_lo, i - 4)
        } else if i < 12 {
            u32_byte(self.inode_table_first_block_lo, i - 8)
        } else if i < 14 {
            u16_byte(self.free_blocks_count_lo, i - 12)
        } else if i < 16 {
            u16_byte(self.free_inodes_count_lo, i - 14)
        } else if i < 18 {
            u16_byte(self.used_dirs_count_lo, i - 16)
        } else if i < 20 {
            u16_byte(self.flags, i - 18)
        } else if i < 24 {
            u32_byte(self.exclude_bitmap_lo, i - 20)
        } else if i < 26 {
            u16_byte(self.block_bitmap_csum_lo, i - 24)
        } else if i < 28 {
            u16_byte(self.inode_bitmap_csum_lo, i - 26)
        } else if i < 30 {
            u16_byte(self.itable_unused_lo, i - 28)
        } else {
            u16_byte(self.checksum, i - 30)
        }
    }

    #[verifier::opaque]
    spec fn image_part1(self, i: int) -> u8 {
        if i < 36 {
            u32_byte(self.block_bitmap_hi, i - 32)
        } else if i < 40 {
            u32_byte(self.inode_bitmap_hi, i - 36)
        } else if i < 44 {
            u32_byte(self.inode_table_first_block_hi, i - 40)
        } else if i < 46 {
            u16_byte(self.free_blocks_count_hi, i - 44)
        } else if i < 48 {
            u16_byte(self.free_inodes_count_hi, i - 46)
        } else if i < 50 {
            u16_byte(self.used_dirs_count_hi, i - 48)
        } else if i < 52 {
            u16_byte(self.itable_unused_hi, i - 50)
        } else if i < 56 {
            u32_byte(self.exclude_bitmap_hi, i - 52)
        } else if i < 58 {
            u16_byte(self.block_bitmap_csum_hi, i - 56)
        } else if i < 60 {
            u16_byte(self.inode_bitmap_csum_hi, i - 58)
        } else {
            u32_byte(self.reserved, i - 60)
        }
    }

    /// The 64-byte on-disk image: the fields in declaration order, each
    /// little-endian, with no padding.
    pub open spec fn spec_to_bytes(self) -> Seq<u8> {
        Seq::new(64, |i: int| self.spec_byte(i))
    }

    fn byte(&self, i: usize) -> (b: u8)
        requires
            i < 64,
        ensures
            b == self.spec_byte(i as int),
    {
        proof {
            reveal(Ext4BlockGroup::spec_byte);
        }
        if i < 32 {
            self.byte_part0(i)
        } else {
            self.byte_part1(i)
        }
    }

    fn byte_part0(&self, i: usize) -> (b: u8)
        requires
            i < 32,
        ensures
            b == self.image_part0(i as int),
    {
        proof {
            reveal(Ext4BlockGroup::image_part0);
        }
        if i < 4 {
            u32_byte_at(self.block_bitmap_lo, i)
        } else if i < 8 {
            u32_byte_at(self.inode_bitmap_lo, i - 4)
        } else if i < 12 {
            u32_byte_at(self.inode_table_first_block_lo, i - 8)
        } else if i < 14 {
            u16_byte_at(self.free_blocks_count_lo, i - 12)
        } else if i < 16 {
            u16_byte_at(self.free_inodes_count_lo, i - 14)
        } else if i < 18 {
            u16_byte_at(self.used_dirs_count_lo, i - 16)
        } else if i < 20 {
            u16_byte_at(self.flags, i - 18)
        } else if i < 24 {
            u32_byte_at(self.exclude_bitmap_lo, i - 20)
        } else if i < 26 {
            u16_byte_at(self.block_bitmap_csum_lo, i - 24)
        } else if i < 28 {
            u16_byte_at(self.inode_bitmap_csum_lo, i - 26)
        } else if i < 30 {
            u16_byte_at(self.itable_unused_lo, i - 28)
        } else {
            u16_byte_at(self.checksum, i - 30)
        }
    }

    fn byte_part1(&self, i: usize) -> (b: u8)
        requires
            32 <= i < 64,
        ensures
            b == self.image_part1(i as int),
    {
        proof {
            reveal(Ext4BlockGroup::image_part1);
        }
        if i < 36 {
            u32_byte_at(self.block_bitmap_hi, i - 32)
        } else if i < 40 {
            u32_byte_at(self.inode_bitmap_hi, i - 36)
        } else if i < 44 {
            u32_byte_at(self.inode_table_first_block_hi, i - 40)
        } else if i < 46 {
            u16_byte_at(self.free_blocks_count_hi, i - 44)
        } else if i < 48 {
            u16_byte_at(self.free_inodes_count_hi, i - 46)
        } else if i < 50 {
            u16_byte_at(self.used_dirs_count_hi, i - 48)
        } else if i < 52 {
            u16_byte_at(self.itable_unused_hi, i - 50)
        } else if i < 56 {
            u32_byte_at(self.exclude_bitmap_hi, i - 52)
        } else if i < 58 {
            u16_byte_at(self.block_bitmap_csum_hi, i - 56)
        } else if i < 60 {
            u16_byte_at(self.inode_bitmap_csum_hi, i - 58)
        } else {
            u32_byte_at(self.reserved, i - 60)
        }
    }

    /// The on-disk image of `self`.
    pub fn to_bytes(&self) -> (r: Vec<u8>)
        ensures
            r@ == self.spec_to_bytes(),
    {
        let mut v: Vec<u8> = Vec::new();
        let mut i: usize = 0;
        while i < 64
            invariant
                i <= 64,
                v@.len() == i,
                forall|k: int| 0 <= k < i ==> v@[k] == self.spec_byte(k),
            decreases 64 - i,
        {
            let b: u8 = self.byte(i);
            v.push(b);
            i = i + 1;
        }
        assert(v@ =~= self.spec_to_bytes());
        v
    }

    /// Decodes the image that starts at `off` in `data`.
    #[verifier::rlimit(100)]
    pub fn parse(data: &[u8], off: usize) -> (r: Self)
        requires
            off + 64 <= data@.len(),
        ensures
            r.spec_to_bytes() == data@.subrange(off as int, off + 64),
    {
        let len: usize = data.len();
        let block_bitmap_lo: u32 = read_u32(data, off);
        let inode_bitmap_lo: u32 = read_u32(data, off + 4);
        let inode_table_first_block_lo: u32 = read_u32(data, off + 8);
        let free_blocks_count_lo: u16 = read_u16(data, off + 12);
        let free_inodes_count_lo: u16 = read_u16(data, off + 14);
        let used_dirs_count_lo: u16 = read_u16(data, off + 16);
        let flags: u16 = read_u16(data, off + 18);
        let exclude_bitmap_lo: u32 = read_u32(data, off + 20);
        let block_bitmap_csum_lo: u16 = read_u16(data, off + 24);
        let inode_bitmap_csum_lo: u16 = read_u16(data, off + 26);
        let itable_unused_lo: u16 = read_u16(data, off + 28);
        let checksum: u16 = read_u16(data, off + 30);
        let block_bitmap_hi: u32 = read_u32(data, off + 32);
        let inode_bitmap_hi: u32 = read_u32(data, off + 36);
        let inode_table_first_block_hi: u32 = read_u32(data, off + 40);
        let free_blocks_count_hi: u16 = read_u16(data, off + 44);
        let free_inodes_count_hi: u16 = read_u16(data, off + 46);
        let used_dirs_count_hi: u16 = read_u16(data, off + 48);
        let itable_unused_hi: u16 = read_u16(data, off + 50);
        let exclude_bitmap_hi: u32 = read_u32(data, off + 52);
        let block_bitmap_csum_hi: u16 = read_u16(data, off + 56);
        let inode_bitmap_csum_hi: u16 = read_u16(data, off + 58);
        let reserved: u32 = read_u32(data, off + 60);
        let r = Ext4BlockGroup {
            block_bitmap_lo,
            inode_bitmap_lo,
            inode_table_first_block_lo,
            free_blocks_count_lo,
            free_inodes_count_lo,
            used_dirs_count_lo,
            flags,
            exclude_bitmap_lo,
            block_bitmap_csum_lo,
            inode_bitmap_csum_lo,
            itable_unused_lo,
            checksum,
            block_bitmap_hi,
            inode_bitmap_hi,
            inode_table_first_block_hi,
            free_blocks_count_hi,
            free_inodes_count_hi,
            used_dirs_count_hi,
            itable_unused_hi,
            exclude_bitmap_hi,
            block_bitmap_csum_hi,
            inode_bitmap_csum_hi,
            reserved,
        };
        proof {
            Ext4BlockGroup::lemma_parse_part0(r, data@, off as int);
            Ext4BlockGroup::lemma_parse_part1(r, data@, off as int);
            Ext4BlockGroup::lemma_parse_join(r, data@, off as int);
        }
        r
    }

    proof fn lemma_parse_join(r: Self, data: Seq<u8>, off: int)
        requires
            0 <= off,
            off + 64 <= data.len(),
            forall|i: int| 0 <= i < 32 ==> #[trigger] r.spec_byte(i) == data[off + i],
            forall|i: int| 32 <= i < 64 ==> #[trigger] r.spec_byte(i) == data[off + i],
        ensures
            r.spec_to_bytes() == data.subrange(off, off + 64),
    {
        assert(r.spec_to_bytes() =~= data.subrange(off, off + 64));
    }

    proof fn lemma_parse_part0(r: Self, data: Seq<u8>, off: int)
        requires
            0 <= off,
            off + 64 <= data.len(),
            r.block_bitmap_lo == le_u32(data, off),
            r.inode_bitmap_lo == le_u32(data, off + 4),
            r.inode_table_first_block_lo == le_u32(data, off + 8),
            r.free_blocks_count_lo == le_u16(data, off + 12),
            r.free_inodes_count_lo == le_u16(data, off + 14),
            r.used_dirs_count_lo == le_u16(data, off + 16),
            r.flags == le_u16(data, off + 18),
            r.exclude_bitmap_lo == le_u32(data, off + 20),
            r.block_bitmap_csum_lo == le_u16(data, off + 24),
            r.inode_bitmap_csum_lo == le_u16(data, off + 26),
            r.itable_unused_lo == le_u16(data, off + 28),
            r.checksum == le_u16(data, off + 30),
        ensures
            forall|i: int| 0 <= i < 32 ==> #[trigger] r.spec_byte(i) == data[off + i],
    {
        assert forall|i: int| 0 <= i < 4 implies #[trigger] r.spec_byte(i) == data[off + i] by {
            reveal(Ext4BlockGroup::spec_byte);
            reveal(Ext4BlockGroup::image_part0);
            lemma_le_u32_bytes(data, off);
        }
        assert forall|i: int| 4 <= i < 8 implies #[trigger] r.spec_byte(i) == data[off + i] by {
            reveal(Ext4BlockGroup::spec_byte);
            reveal(Ext4BlockGroup::image_part0);
            lemma_le_u32_bytes(data, off + 4);
        }
        assert forall|i: int| 8 <= i < 12 implies #[trigger] r.spec_byte(i) == data[off + i] by {
            reveal(Ext4BlockGroup::spec_byte);
            reveal(Ext4BlockGroup::image_part0);
            lemma_le_u32_bytes(data, off + 8);
        }
        assert forall|i: int| 12 <= i < 14 implies #[trigger] r.spec_byte(i) == data[off + i] by {
            reveal(Ext4BlockGroup::spec_byte);
            reveal(Ext4BlockGroup::image_part0);
            lemma_le_u16_bytes(data, off + 12);
        }
        assert forall|i: int| 14 <= i < 16 implies #[trigger] r.spec_byte(i) == data[off + i] by {
            reveal(Ext4BlockGroup::spec_byte);
            reveal(Ext4BlockGroup::image_part0);
            lemma_le_u16_bytes(data, off + 14);
        }
        assert forall|i: int| 16 <= i < 18 implies #[trigger] r.spec_byte(i) == data[off + i] by {
            reveal(Ext4BlockGroup::spec_byte);
            reveal(Ext4BlockGroup::image_part0);
            lemma_le_u16_bytes(data, off + 16);
        }
        assert forall|i: int| 18 <= i < 20 implies #[trigger] r.spec_byte(i) == data[off + i] by {
            reveal(Ext4BlockGroup::spec_byte);
            reveal(Ext4BlockGroup::image_part0);
            lemma_le_u16_bytes(data, off + 18);
        }
        assert forall|i: int| 20 <= i < 24 implies #[trigger] r.spec_byte(i) == data[off + i] by {
            reveal(Ext4BlockGroup::spec_byte);
            reveal(Ext4BlockGroup::image_part0);
            lemma_le_u32_bytes(data, off + 20);
        }
        assert forall|i: int| 24 <= i < 26 implies #[trigger] r.spec_byte(i) == data[off + i] by {
            reveal(Ext4BlockGroup::spec_byte);
            reveal(Ext4BlockGroup::image_part0);
            lemma_le_u16_bytes(data, off + 24);
        }
        assert forall|i: int| 26 <= i < 28 implies #[trigger] r.spec_byte(i) == data[off + i] by {
            reveal(Ext4BlockGroup::spec_byte);
            reveal(Ext4BlockGroup::image_part0);
            lemma_le_u16_bytes(data, off + 26);
        }
        assert forall|i: int| 28 <= i < 30 implies #[trigger] r.spec_byte(i) == data[off + i] by {
            reveal(Ext4BlockGroup::spec_byte);
            reveal(Ext4BlockGroup::image_part0);
            lemma_le_u16_bytes(data, off + 28);
        }
        assert forall|i: int| 30 <= i < 32 implies #[trigger] r.spec_byte(i) == data[off + i] by {
            reveal(Ext4BlockGroup::spec_byte);
            reveal(Ext4BlockGroup::image_part0);
            lemma_le_u16_bytes(data, off + 30);
        }
    }

    proof fn lemma_parse_part1(r: Self, data: Seq<u8>, off: int)
        requires
            0 <= off,
            off + 64 <= data.len(),
            r.block_bitmap_hi == le_u32(data, off + 32),
            r.inode_bitmap_hi == le_u32(data, off + 36),
            r.inode_table_first_block_hi == le_u32(data, off + 40),
            r.free_blocks_count_hi == le_u16(data, off + 44),
            r.free_inodes_count_hi == le_u16(data, off + 46),
            r.used_dirs_count_hi == le_u16(data, off + 48),
            r.itable_unused_hi == le_u16(data, off + 50),
            r.exclude_bitmap_hi == le_u32(data, off + 52),
            r.block_bitmap_csum_hi == le_u16(data, off + 56),
            r.inode_bitmap_csum_hi == le_u16(data, off + 58),
            r.reserved == le_u32(data, off + 60),
        ensures
            forall|i: int| 32 <= i < 64 ==> #[trigger] r.spec_byte(i) == data[off + i],
    {
        assert forall|i: int| 32 <= i < 36 implies #[trigger] r.spec_byte(i) == data[off + i] by {
            reveal(Ext4BlockGroup::spec_byte);
            reveal(Ext4BlockGroup::image_part1);
            lemma_le_u32_bytes(data, off + 32);
        }
        assert forall|i: int| 36 <= i < 40 implies #[trigger] r.spec_byte(i) == data[off + i] by {
            reveal(Ext4BlockGroup::spec_byte);
            reveal(Ext4BlockGroup::image_part1);
            lemma_le_u32_bytes(data, off + 36);
        }
        assert forall|i: int| 40 <= i < 44 implies #[trigger] r.spec_byte(i) == data[off + i] by {
            reveal(Ext4BlockGroup::spec_byte);
            reveal(Ext4BlockGroup::image_part1);
            lemma_le_u32_bytes(data, off + 40);
        }
        assert forall|i: int| 44 <= i < 46 implies #[trigger] r.spec_byte(i) == data[off + i] by {
            reveal(Ext4BlockGroup::spec_byte);
            reveal(Ext4BlockGroup::image_part1);
            lemma_le_u16_bytes(data, off + 44);
        }
        assert forall|i: int| 46 <= i < 48 implies #[trigger] r.spec_byte(i) == data[off + i] by {
            reveal(Ext4BlockGroup::spec_byte);
            reveal(Ext4BlockGroup::image_part1);
            lemma_le_u16_bytes(data, off + 46);
        }
        assert forall|i: int| 48 <= i < 50 implies #[trigger] r.spec_byte(i) == data[off + i] by {
            reveal(Ext4BlockGroup::spec_byte);
            reveal(Ext4BlockGroup::image_part1);
            lemma_le_u16_bytes(data, off + 48);
        }
        assert forall|i: int| 50 <= i < 52 implies #[trigger] r.spec_byte(i) == data[off + i] by {
            reveal(Ext4BlockGroup::spec_byte);
            reveal(Ext4BlockGroup::image_part1);
            lemma_le_u16_bytes(data, off + 50);
        }
        assert forall|i: int| 52 <= i < 56 implies #[trigger] r.spec_byte(i) == data[off + i] by {
            reveal(Ext4BlockGroup::spec_byte);
            reveal(Ext4BlockGroup::image_part1);
            lemma_le_u32_bytes(data, off + 52);
        }
        assert forall|i: int| 56 <= i < 58 implies #[trigger] r.spec_byte(i) == data[off + i] by {
            reveal(Ext4BlockGroup::spec_byte);
            reveal(Ext4BlockGroup::image_part1);
            lemma_le_u16_bytes(data, off + 56);
        }
        assert forall|i: int| 58 <= i < 60 implies #[trigger] r.spec_byte(i) == data[off + i] by {
            reveal(Ext4BlockGroup::spec_byte);
            reveal(Ext4BlockGroup::image_part1);
            lemma_le_u16_bytes(data, off + 58);
        }
        assert forall|i: int| 60 <= i < 64 implies #[trigger] r.spec_byte(i) == data[off + i] by {
            reveal(Ext4BlockGroup::spec_byte);
            reveal(Ext4BlockGroup::image_part1);
            lemma_le_u32_bytes(data, off + 60);
        }
    }

    proof fn lemma_injective_part0(a: Self, b: Self)
        requires
            a.spec_to_bytes() == b.spec_to_bytes(),
        ensures
            a.block_bitmap_lo == b.block_bitmap_lo,
            a.inode_bitmap_lo == b.inode_bitmap_lo,
            a.inode_table_first_block_lo == b.inode_table_first_block_lo,
            a.free_blocks_count_lo == b.free_blocks_count_lo,
            a.free_inodes_count_lo == b.free_inodes_count_lo,
            a.used_dirs_count_lo == b.used_dirs_count_lo,
            a.flags == b.flags,
            a.exclude_bitmap_lo == b.exclude_bitmap_lo,
            a.block_bitmap_csum_lo == b.block_bitmap_csum_lo,
            a.inode_bitmap_csum_lo == b.inode_bitmap_csum_lo,
            a.itable_unused_lo == b.itable_unused_lo,
            a.checksum == b.checksum,
    {
        Ext4BlockGroup::lemma_same_image_bytes(a, b);
        assert forall|k: int| 0 <= k < 4 implies #[trigger] u32_byte(a.block_bitmap_lo, k) == u32_byte(b.block_bitmap_lo, k) by {
            reveal(Ext4BlockGroup::spec_byte);
            reveal(Ext4BlockGroup::image_part0);
            assert(a.spec_byte(k) == b.spec_byte(k));
        }
        lemma_u32_bytes_injective(a.block_bitmap_lo, b.block_bitmap_lo);
        assert forall|k: int| 0 <= k < 4 implies #[trigger] u32_byte(a.inode_bitmap_lo, k) == u32_byte(b.inode_bitmap_lo, k) by {
            reveal(Ext4BlockGroup::spec_byte);
            reveal(Ext4BlockGroup::image_part0);
            assert(a.spec_byte(4 + k) == b.spec_byte(4 + k));
        }
        lemma_u32_bytes_injective(a.inode_bitmap_lo, b.inode_bitmap_lo);
        assert forall|k: int| 0 <= k < 4 implies #[trigger] u32_byte(a.inode_table_first_block_lo, k) == u32_byte(b.inode_table_first_block_lo, k) by {
            reveal(Ext4BlockGroup::spec_byte);
            reveal(Ext4BlockGroup::image_part0);
            assert(a.spec_byte(8 + k) == b.spec_byte(8 + k));
        }
        lemma_u32_bytes_injective(a.inode_table_first_block_lo, b.inode_table_first_block_lo);
        assert forall|k: int| 0 <= k < 2 implies #[trigger] u16_byte(a.free_blocks_count_lo, k) == u16_byte(b.free_blocks_count_lo, k) by {
            reveal(Ext4BlockGroup::spec_byte);
            reveal(Ext4BlockGroup::image_part0);
            assert(a.spec_byte(12 + k) == b.spec_byte(12 + k));
        }
        lemma_u16_bytes_injective(a.free_blocks_count_lo, b.free_blocks_count_lo);
        assert forall|k: int| 0 <= k < 2 implies #[trigger] u16_byte(a.free_inodes_count_lo, k) == u16_byte(b.free_inodes_count_lo, k) by {
            reveal(Ext4BlockGroup::spec_byte);
            reveal(Ext4BlockGroup::image_part0);
            assert(a.spec_byte(14 + k) == b.spec_byte(14 + k));
        }
        lemma_u16_bytes_injective(a.free_inodes_count_lo, b.free_inodes_count_lo);
        assert forall|k: int| 0 <= k < 2 implies #[trigger] u16_byte(a.used_dirs_count_lo, k) == u16_byte(b.used_dirs_count_lo, k) by {
            reveal(Ext4BlockGroup::spec_byte);
            reveal(Ext4BlockGroup::image_part0);
            assert(a.spec_byte(16 + k) == b.spec_byte(16 + k));
        }
        lemma_u16_bytes_injective(a.used_dirs_count_lo, b.used_dirs_count_lo);
        assert forall|k: int| 0 <= k < 2 implies #[trigger] u16_byte(a.flags, k) == u16_byte(b.flags, k) by {
            reveal(Ext4BlockGroup::spec_byte);
            reveal(Ext4BlockGroup::image_part0);
            assert(a.spec_byte(18 + k) == b.spec_byte(18 + k));
        }
        lemma_u16_bytes_injective(a.flags, b.flags);
        assert forall|k: int| 0 <= k < 4 implies #[trigger] u32_byte(a.exclude_bitmap_lo, k) == u32_byte(b.exclude_bitmap_lo, k) by {
            reveal(Ext4BlockGroup::spec_byte);
            reveal(Ext4BlockGroup::image_part0);
            assert(a.spec_byte(20 + k) == b.spec_byte(20 + k));
        }
        lemma_u32_bytes_injective(a.exclude_bitmap_lo, b.exclude_bitmap_lo);
        assert forall|k: int| 0 <= k < 2 implies #[trigger] u16_byte(a.block_bitmap_csum_lo, k) == u16_byte(b.block_bitmap_csum_lo, k) by {
            reveal(Ext4BlockGroup::spec_byte);
            reveal(Ext4BlockGroup::image_part0);
            assert(a.spec_byte(24 + k) == b.spec_byte(24 + k));
        }
        lemma_u16_bytes_injective(a.block_bitmap_csum_lo, b.block_bitmap_csum_lo);
        assert forall|k: int| 0 <= k < 2 implies #[trigger] u16_byte(a.inode_bitmap_csum_lo, k) == u16_byte(b.inode_bitmap_csum_lo, k) by {
            reveal(Ext4BlockGroup::spec_byte);
            reveal(Ext4BlockGroup::image_part0);
            assert(a.spec_byte(26 + k) == b.spec_byte(26 + k));
        }
        lemma_u16_bytes_injective(a.inode_bitmap_csum_lo, b.inode_bitmap_csum_lo);
        assert forall|k: int| 0 <= k < 2 implies #[trigger] u16_byte(a.itable_unused_lo, k) == u16_byte(b.itable_unused_lo, k) by {
            reveal(Ext4BlockGroup::spec_byte);
            reveal(Ext4BlockGroup::image_part0);
            assert(a.spec_byte(28 + k) == b.spec_byte(28 + k));
        }
        lemma_u16_bytes_injective(a.itable_unused_lo, b.itable_unused_lo);
        assert forall|k: int| 0 <= k < 2 implies #[trigger] u16_byte(a.checksum, k) == u16_byte(b.checksum, k) by {
            reveal(Ext4BlockGroup::spec_byte);
            reveal(Ext4BlockGroup::image_part0);
            assert(a.spec_byte(30 + k) == b.spec_byte(30 + k));
        }
        lemma_u16_bytes_injective(a.checksum, b.checksum);
    }

    proof fn lemma_injective_part1(a: Self, b: Self)
        requires
            a.spec_to_bytes() == b.spec_to_bytes(),
        ensures
            a.block_bitmap_hi == b.block_bitmap_hi,
            a.inode_bitmap_hi == b.inode_bitmap_hi,
            a.inode_table_first_block_hi == b.inode_table_first_block_hi,
            a.free_blocks_count_hi == b.free_blocks_count_hi,
            a.free_inodes_count_hi == b.free_inodes_count_hi,
            a.used_dirs_count_hi == b.used_dirs_count_hi,
            a.itable_unused_hi == b.itable_unused_hi,
            a.exclude_bitmap_hi == b.exclude_bitmap_hi,
            a.block_bitmap_csum_hi == b.block_bitmap_csum_hi,
            a.inode_bitmap_csum_hi == b.inode_bitmap_csum_hi,
            a.reserved == b.reserved,
    {
        Ext4BlockGroup::lemma_same_image_bytes(a, b);
        assert forall|k: int| 0 <= k < 4 implies #[trigger] u32_byte(a.block_bitmap_hi, k) == u32_byte(b.block_bitmap_hi, k) by {
            reveal(Ext4BlockGroup::spec_byte);
            reveal(Ext4BlockGroup::image_part1);
            assert(a.spec_byte(32 + k) == b.spec_byte(32 + k));
        }
        lemma_u32_bytes_injective(a.block_bitmap_hi, b.block_bitmap_hi);
        assert forall|k: int| 0 <= k < 4 implies #[trigger] u32_byte(a.inode_bitmap_hi, k) == u32_byte(b.inode_bitmap_hi, k) by {
            reveal(Ext4BlockGroup::spec_byte);
            reveal(Ext4BlockGroup::image_part1);
            assert(a.spec_byte(36 + k) == b.spec_byte(36 + k));
        }
        lemma_u32_bytes_injective(a.inode_bitmap_hi, b.inode_bitmap_hi);
        assert forall|k: int| 0 <= k < 4 implies #[trigger] u32_byte(a.inode_table_first_block_hi, k) == u32_byte(b.inode_table_first_block_hi, k) by {
            reveal(Ext4BlockGroup::spec_byte);
            reveal(Ext4BlockGroup::image_part1);
            assert(a.spec_byte(40 + k) == b.spec_byte(40 + k));
        }
        lemma_u32_bytes_injective(a.inode_table_first_block_hi, b.inode_table_first_block_hi);
        assert forall|k: int| 0 <= k < 2 implies #[trigger] u16_byte(a.free_blocks_count_hi, k) == u16_byte(b.free_blocks_count_hi, k) by {
            reveal(Ext4BlockGroup::spec_byte);
            reveal(Ext4BlockGroup::image_part1);
            assert(a.spec_byte(44 + k) == b.spec_byte(44 + k));
        }
        lemma_u16_bytes_injective(a.free_blocks_count_hi, b.free_blocks_count_hi);
        assert forall|k: int| 0 <= k < 2 implies #[trigger] u16_byte(a.free_inodes_count_hi, k) == u16_byte(b.free_inodes_count_hi, k) by {
            reveal(Ext4BlockGroup::spec_byte);
            reveal(Ext4BlockGroup::image_part1);
            assert(a.spec_byte(46 + k) == b.spec_byte(46 + k));
        }
        lemma_u16_bytes_injective(a.free_inodes_count_hi, b.free_inodes_count_hi);
        assert forall|k: int| 0 <= k < 2 implies #[trigger] u16_byte(a.used_dirs_count_hi, k) == u16_byte(b.used_dirs_count_hi, k) by {
            reveal(Ext4BlockGroup::spec_byte);
            reveal(Ext4BlockGroup::image_part1);
            assert(a.spec_byte(48 + k) == b.spec_byte(48 + k));
        }
        lemma_u16_bytes_injective(a.used_dirs_count_hi, b.used_dirs_count_hi);
        assert forall|k: int| 0 <= k < 2 implies #[trigger] u16_byte(a.itable_unused_hi, k) == u16_byte(b.itable_unused_hi, k) by {
            reveal(Ext4BlockGroup::spec_byte);
            reveal(Ext4BlockGroup::image_part1);
            assert(a.spec_byte(50 + k) == b.spec_byte(50 + k));
        }
        lemma_u16_bytes_injective(a.itable_unused_hi, b.itable_unused_hi);
        assert forall|k: int| 0 <= k < 4 implies #[trigger] u32_byte(a.exclude_bitmap_hi, k) == u32_byte(b.exclude_bitmap_hi, k) by {
            reveal(Ext4BlockGroup::spec_byte);
            reveal(Ext4BlockGroup::image_part1);
            assert(a.spec_byte(52 + k) == b.spec_byte(52 + k));
        }
        lemma_u32_bytes_injective(a.exclude_bitmap_hi, b.exclude_bitmap_hi);
        assert forall|k: int| 0 <= k < 2 implies #[trigger] u16_byte(a.block_bitmap_csum_hi, k) == u16_byte(b.block_bitmap_csum_hi, k) by {
            reveal(Ext4BlockGroup::spec_byte);
            reveal(Ext4BlockGroup::image_part1);
            assert(a.spec_byte(56 + k) == b.spec_byte(56 + k));
        }
        lemma_u16_bytes_injective(a.block_bitmap_csum_hi, b.block_bitmap_csum_hi);
        assert forall|k: int| 0 <= k < 2 implies #[trigger] u16_byte(a.inode_bitmap_csum_hi, k) == u16_byte(b.inode_bitmap_csum_hi, k) by {
            reveal(Ext4BlockGroup::spec_byte);
            reveal(Ext4BlockGroup::image_part1);
            assert(a.spec_byte(58 + k) == b.spec_byte(58 + k));
        }
        lemma_u16_bytes_injective(a.inode_bitmap_csum_hi, b.inode_bitmap_csum_hi);
        assert forall|k: int| 0 <= k < 4 implies #[trigger] u32_byte(a.reserved, k) == u32_byte(b.reserved, k) by {
            reveal(Ext4BlockGroup::spec_byte);
            reveal(Ext4BlockGroup::image_part1);
            assert(a.spec_byte(60 + k) == b.spec_byte(60 + k));
        }
        lemma_u32_bytes_injective(a.reserved, b.reserved);
    }

    proof fn lemma_same_image_bytes(a: Self, b: Self)
        requires
            a.spec_to_bytes() == b.spec_to_bytes(),
        ensures
            forall|i: int| 0 <= i < 64 ==> #[trigger] a.spec_byte(i) == b.spec_byte(i),
    {
        assert forall|i: int| 0 <= i < 64 implies #[trigger] a.spec_byte(i) == b.spec_byte(i) by {
            assert(a.spec_to_bytes()[i] == a.spec_byte(i));
            assert(b.spec_to_bytes()[i] == b.spec_byte(i));
        }
    }

    /// Two values with the same image are equal.
    pub proof fn lemma_image_injective(a: Self, b: Self)
        requires
            a.spec_to_bytes() == b.spec_to_bytes(),
        ensures
            a == b,
    {
        Ext4BlockGroup::lemma_injective_part0(a, b);
        Ext4BlockGroup::lemma_injective_part1(a, b);
    }

    /// The stored checksum.
    pub closed spec fn spec_checksum(self) -> u16 {
        self.checksum
    }

    /// The low 32 bits of the first block of the group's inode table.
    pub closed spec fn spec_inode_table_block_lo(self) -> u32 {
        self.inode_table_first_block_lo
    }

    /// The high 32 bits of the first block of the group's inode table, as
    /// stored (they count only for descriptors of 64 bytes or more).
    pub closed spec fn spec_inode_table_block_hi(self) -> u32 {
        self.inode_table_first_block_hi
    }

    /// The first block of the group's inode table: the low half, and the
    /// high half when the file system's descriptors are at least
    /// `EXT4_MIN_DESC_SIZE_64BIT` bytes (with smaller descriptors, bytes 32
    /// and up of the 64 read belong to the next descriptor).
    pub open spec fn spec_inode_table_block(self, super_block: Ext4Superblock) -> nat {
        if super_block.spec_desc_size() >= EXT4_MIN_DESC_SIZE_64BIT {
            self.spec_inode_table_block_hi() as nat * 0x1_0000_0000
                + self.spec_inode_table_block_lo() as nat
        } else {
            self.spec_inode_table_block_lo() as nat
        }
    }

    /// The image of `self` with its checksum replaced by `checksum`: the
    /// image with bytes 30 and 31 replaced by the bytes of `checksum`,
    /// little-endian.
    pub proof fn lemma_with_checksum_image(self, checksum: u16)
        ensures
            self.with_checksum(checksum).spec_to_bytes() == self.spec_to_bytes().update(
                30,
                u16_byte(checksum, 0),
            ).update(31, u16_byte(checksum, 1)),
    {
        let a = self.with_checksum(checksum);
        let t = self.spec_to_bytes().update(30, u16_byte(checksum, 0)).update(31, u16_byte(checksum, 1));
        assert forall|i: int| 0 <= i < 64 implies #[trigger] a.spec_to_bytes()[i] == t[i] by {
            reveal(Ext4BlockGroup::spec_byte);
            reveal(Ext4BlockGroup::image_part0);
            reveal(Ext4BlockGroup::image_part1);
        }
        assert(a.spec_to_bytes() =~= t);
    }

    /// `self` with the stored checksum replaced by `checksum`.
    pub closed spec fn with_checksum(self, checksum: u16) -> Self {
        Ext4BlockGroup { checksum, ..self }
    }

    /// The CRC-32C register over what the descriptor checksum covers: the
    /// volume uuid, the group number (4 bytes, little-endian), then the
    /// first `desc_size` bytes of the image with the checksum field zeroed.
    pub open spec fn spec_checksum_crc(self, super_block: Ext4Superblock, bgid: u32) -> u32 {
        crc32c(
            crc32c(crc32c(EXT4_CRC32_INIT, super_block.spec_uuid()), u32_le_seq(bgid)),
            self.with_checksum(0).spec_to_bytes().take(super_block.spec_desc_size() as int),
        )
    }

    /// The descriptor checksum: the low 16 bits of `spec_checksum_crc`.
    pub open spec fn spec_block_group_checksum(self, super_block: Ext4Superblock, bgid: u32) -> u16 {
        (self.spec_checksum_crc(super_block, bgid) & 0xFFFF) as u16
    }

    /// Where the fields the library reads sit in the image: the stored
    /// checksum at byte 30, the inode table block in halves at bytes 8 and
    /// 40, each little-endian.
    pub proof fn lemma_field_offsets(self)
        ensures
            self.spec_checksum() == le_u16(self.spec_to_bytes(), 30),
            self.spec_inode_table_block_lo() == le_u32(self.spec_to_bytes(), 8),
            self.spec_inode_table_block_hi() == le_u32(self.spec_to_bytes(), 40),
    {
        let s = self.spec_to_bytes();
        assert forall|k: int| 0 <= k < 2 implies s[30 + k] == #[trigger] u16_byte(self.checksum, k) by {
            reveal(Ext4BlockGroup::spec_byte);
            reveal(Ext4BlockGroup::image_part0);
        }
        lemma_le_u16_of_bytes(s, 30, self.checksum);
        assert forall|k: int| 0 <= k < 4 implies s[8 + k] == #[trigger] u32_byte(
            self.inode_table_first_block_lo,
            k,
        ) by {
            reveal(Ext4BlockGroup::spec_byte);
            reveal(Ext4BlockGroup::image_part0);
        }
        lemma_le_u32_of_bytes(s, 8, self.inode_table_first_block_lo);
        assert forall|k: int| 0 <= k < 4 implies s[40 + k] == #[trigger] u32_byte(
            self.inode_table_first_block_hi,
            k,
        ) by {
            reveal(Ext4BlockGroup::spec_byte);
            reveal(Ext4BlockGroup::image_part1);
        }
        lemma_le_u32_of_bytes(s, 40, self.inode_table_first_block_hi);
    }

    /// Replacing the stored checksum sets it and touches nothing else.
    pub proof fn lemma_with_checksum(self, v: u16, w: u16)
        ensures
            self.with_checksum(v).spec_checksum() == v,
            self.with_checksum(v).with_checksum(w) == self.with_checksum(w),
            self.with_checksum(self.spec_checksum()) == self,
            self.with_checksum(v).spec_inode_table_block_lo() == self.spec_inode_table_block_lo(),
            self.with_checksum(v).spec_inode_table_block_hi() == self.spec_inode_table_block_hi(),
    {
    }

    /// The checksum does not depend on the checksum stored in the
    /// descriptor.
    pub proof fn lemma_checksum_ignores_stored(self, v: u16, super_block: Ext4Superblock, bgid: u32)
        ensures
            self.with_checksum(v).spec_block_group_checksum(super_block, bgid)
                == self.spec_block_group_checksum(super_block, bgid),
    {
        assert(self.with_checksum(v).with_checksum(0) == self.with_checksum(0));
    }

    /// Once its checksum is set, a descriptor verifies: the stored checksum
    /// is the checksum computed from it, and setting it again changes
    /// nothing.
    pub proof fn lemma_set_checksum_verifies(self, super_block: Ext4Superblock, bgid: u32)
        ensures
            ({
                let set = self.with_checksum(self.spec_block_group_checksum(super_block, bgid));
                &&& set.spec_checksum() == set.spec_block_group_checksum(super_block, bgid)
                &&& set.with_checksum(set.spec_block_group_checksum(super_block, bgid)) == set
            }),
    {
        let c = self.spec_block_group_checksum(super_block, bgid);
        self.lemma_checksum_ignores_stored(c, super_block, bgid);
        self.lemma_with_checksum(c, c);
    }

    /// What the descriptor checksum covers: the CRC-32C register, seeded
    /// with `EXT4_CRC32_INIT`, run once over the volume uuid, the group number
    /// (4 little-endian bytes), then the first `n` bytes of the image with
    /// the checksum bytes 30 and 31 zeroed, where `n` is the stored
    /// descriptor size but never less than 32.
    pub proof fn lemma_checksum_input(self, super_block: Ext4Superblock, bgid: u32)
        ensures
            ({
                let raw = super_block.spec_raw_desc_size();
                let n: int = if raw < 32 {
                    32
                } else {
                    raw as int
                };
                &&& n >= 32
                &&& self.spec_checksum_crc(super_block, bgid) == crc32c(
                    EXT4_CRC32_INIT,
                    super_block.spec_uuid() + u32_le_seq(bgid) + self.spec_to_bytes().update(
                        30,
                        0u8,
                    ).update(31, 0u8).take(n),
                )
            }),
    {
        self.lemma_with_checksum_image(0);
        assert(u16_byte(0, 0) == 0u8 && u16_byte(0, 1) == 0u8) by (bit_vector);
        let u = super_block.spec_uuid();
        let id = u32_le_seq(bgid);
        let covered = self.with_checksum(0).spec_to_bytes().take(super_block.spec_desc_size() as int);
        lemma_crc32c_append(EXT4_CRC32_INIT, u, id);
        lemma_crc32c_append(EXT4_CRC32_INIT, u + id, covered);
    }

    /// Two descriptors that differ at most in their stored checksums have
    /// the same checksum.
    pub proof fn lemma_checksum_equal_except_stored(
        a: Self,
        b: Self,
        super_block: Ext4Superblock,
        bgid: u32,
    )
        requires
            a.with_checksum(0) == b.with_checksum(0),
        ensures
            a.spec_block_group_checksum(super_block, bgid) == b.spec_block_group_checksum(
                super_block,
                bgid,
            ),
    {
        assert(a.with_checksum(0).with_checksum(0) == a.with_checksum(0));
    }

    /// Setting a descriptor's checksum twice gives what setting it once
    /// gives.
    pub proof fn lemma_set_checksum_idempotent(self, super_block: Ext4Superblock, bgid: u32)
        ensures
            ({
                let once = self.with_checksum(self.spec_block_group_checksum(super_block, bgid));
                once.with_checksum(once.spec_block_group_checksum(super_block, bgid)) == once
            }),
    {
        self.lemma_set_checksum_verifies(super_block, bgid);
    }

    /// Returns the stored checksum.
    pub fn checksum(&self) -> (r: u16)
        ensures
            r == self.spec_checksum(),
    {
        self.checksum
    }

    /// Returns the first block of the group's inode table; the high half
    /// counts only when the descriptors are at least
    /// `EXT4_MIN_DESC_SIZE_64BIT` bytes.
    pub fn inode_table_first_block(&self, super_block: &Ext4Superblock) -> (r: u64)
        ensures
            r == self.spec_inode_table_block(*super_block),
    {
        let lo: u32 = self.inode_table_first_block_lo;
        if super_block.desc_size() >= EXT4_MIN_DESC_SIZE_64BIT {
            let hi: u32 = self.inode_table_first_block_hi;
            let r: u64 = ((hi as u64) << 32u64) | (lo as u64);
            assert(r == (hi as u64) * 0x1_0000_0000u64 + (lo as u64)) by (bit_vector)
                requires
                    r == ((hi as u64) << 32u64) | (lo as u64),
            ;
            r
        } else {
            lo as u64
        }
    }

    /// How many descriptors one block holds: `BLOCK_SIZE` divided by the
    /// stored descriptor size.
    pub open spec fn spec_descriptors_per_block(super_block: Ext4Superblock) -> int {
        BLOCK_SIZE as int / super_block.spec_raw_desc_size() as int
    }

    /// The block that holds the descriptor of group `bgid`: the groups'
    /// descriptors fill the blocks that follow the first data block.
    pub open spec fn spec_descriptor_block(super_block: Ext4Superblock, bgid: int) -> int {
        super_block.spec_first_data_block() + bgid / Self::spec_descriptors_per_block(super_block)
            + 1
    }

    /// The offset of the descriptor of group `bgid` within its block.
    pub open spec fn spec_descriptor_offset(super_block: Ext4Superblock, bgid: int) -> int {
        (bgid % Self::spec_descriptors_per_block(super_block)) * super_block.spec_raw_desc_size()
    }

    /// The byte position on the device of the block that holds the
    /// descriptor of group `bgid`.
    pub open spec fn spec_descriptor_block_pos(super_block: Ext4Superblock, bgid: int) -> int {
        Self::spec_descriptor_block(super_block, bgid) * BLOCK_SIZE
    }

    /// The byte position on the device of the descriptor of group `bgid`.
    pub open spec fn spec_descriptor_pos(super_block: Ext4Superblock, bgid: int) -> int {
        Self::spec_descriptor_block(super_block, bgid) * BLOCK_SIZE + Self::spec_descriptor_offset(
            super_block,
            bgid,
        )
    }

    /// The stored descriptor size is usable (the location divides by it and
    /// by the number of descriptors per block) and the block of group `bgid`
    /// ends within the `usize` range.
    pub open spec fn spec_descriptor_location_ok(super_block: Ext4Superblock, bgid: int) -> bool {
        &&& 0 < super_block.spec_raw_desc_size() <= BLOCK_SIZE
        &&& (Self::spec_descriptor_block(super_block, bgid) + 1) * BLOCK_SIZE <= usize::MAX
    }

    /// A descriptor lies within its block.
    pub proof fn lemma_descriptor_in_block(super_block: Ext4Superblock, bgid: int)
        requires
            0 <= bgid,
            0 < super_block.spec_raw_desc_size() <= BLOCK_SIZE,
        ensures
            0 <= Self::spec_descriptor_offset(super_block, bgid),
            Self::spec_descriptor_offset(super_block, bgid) + super_block.spec_raw_desc_size()
                <= BLOCK_SIZE,
    {
        let d = super_block.spec_raw_desc_size() as int;
        let c = Self::spec_descriptors_per_block(super_block);
        let r = bgid % c;
        assert(c >= 1 && c * d <= 4096) by (nonlinear_arith)
            requires
                0 < d <= 4096,
                c == 4096int / d,
        ;
        assert(0 <= r < c);
        assert(0 <= r * d && r * d + d <= 4096) by (nonlinear_arith)
            requires
                0 <= r < c,
                c * d <= 4096,
                0 < d,
        ;
    }

    /// Distinct groups have disjoint descriptors: the descriptor of a lower
    /// group ends at or before the descriptor of a higher group begins.
    pub proof fn lemma_descriptors_disjoint(super_block: Ext4Superblock, a: int, b: int)
        requires
            0 <= a < b,
            0 < super_block.spec_raw_desc_size() <= BLOCK_SIZE,
        ensures
            Self::spec_descriptor_pos(super_block, a) + super_block.spec_raw_desc_size()
                <= Self::spec_descriptor_pos(super_block, b),
    {
        let d = super_block.spec_raw_desc_size() as int;
        let c = Self::spec_descriptors_per_block(super_block);
        Self::lemma_descriptor_in_block(super_block, a);
        Self::lemma_descriptor_in_block(super_block, b);
        assert(c >= 1) by (nonlinear_arith)
            requires
                0 < d <= 4096,
                c == 4096int / d,
        ;
        let qa = a / c;
        let qb = b / c;
        let ra = a % c;
        let rb = b % c;
        assert(a == qa * c + ra && b == qb * c + rb) by (nonlinear_arith)
            requires
                c >= 1,
                qa == a / c,
                qb == b / c,
                ra == a % c,
                rb == b % c,
        ;
        assert(qa <= qb) by (nonlinear_arith)
            requires
                a < b,
                c >= 1,
                qa == a / c,
                qb == b / c,
        ;
        if qa == qb {
            assert(ra < rb);
            assert(ra * d + d <= rb * d) by (nonlinear_arith)
                requires
                    ra < rb,
                    0 < d,
            ;
        } else {
            assert((qa + 1) * 4096 <= qb * 4096) by (nonlinear_arith)
                requires
                    qa < qb,
            ;
        }
    }

    /// Returns where the descriptor of group `bgid` is: the byte position of
    /// its block on the device, and its offset within that block.
    pub fn descriptor_location(super_block: &Ext4Superblock, bgid: usize) -> (r: (usize, usize))
        requires
            Self::spec_descriptor_location_ok(*super_block, bgid as int),
        ensures
            r.0 == Self::spec_descriptor_block(*super_block, bgid as int) * BLOCK_SIZE,
            r.1 == Self::spec_descriptor_offset(*super_block, bgid as int),
            r.1 + super_block.spec_raw_desc_size() <= BLOCK_SIZE,
    {
        proof {
            Self::lemma_descriptor_in_block(*super_block, bgid as int);
        }
        let desc_size = super_block.raw_desc_size() as usize;
        let dsc_cnt = BLOCK_SIZE / desc_size;
        assert(dsc_cnt >= 1) by (nonlinear_arith)
            requires
                dsc_cnt == 4096usize / desc_size,
                0 < desc_size <= 4096,
        ;
        let dsc_id = bgid / dsc_cnt;
        let first_data_block = super_block.first_data_block();
        let block_id = first_data_block as usize + dsc_id + 1;
        let offset = (bgid % dsc_cnt) * desc_size;
        (block_id * BLOCK_SIZE, offset)
    }

    /// What decoding the descriptor at `offset` in `data` gives: the
    /// descriptor whose image is the 64 bytes at `offset`, or
    /// `BufferTooShort` when `data` ends before them.
    pub open spec fn spec_decode_at(data: Seq<u8>, offset: int) -> Result<Self, Ext4Error> {
        if 0 <= offset && offset + BLOCK_GROUP_DESC_SIZE <= data.len() {
            Ok(
                choose|x: Ext4BlockGroup|
                    x.spec_to_bytes() == data.subrange(offset, offset + BLOCK_GROUP_DESC_SIZE),
            )
        } else {
            Err(Ext4Error::BufferTooShort)
        }
    }

    /// Decodes the descriptor at `offset` in `data`, a block read from the
    /// device; fails when `data` ends before the descriptor does.
    pub fn decode_at(data: &[u8], offset: usize) -> (r: Result<Self, Ext4Error>)
        ensures
            r == Self::spec_decode_at(data@, offset as int),
            r is Ok <==> offset + BLOCK_GROUP_DESC_SIZE <= data@.len(),
            r matches Ok(bg) ==> bg.spec_to_bytes() == data@.subrange(
                offset as int,
                offset + BLOCK_GROUP_DESC_SIZE,
            ),
            r matches Err(e) ==> e == Ext4Error::BufferTooShort,
    {
        if offset > data.len() || data.len() - offset < BLOCK_GROUP_DESC_SIZE {
            Err(Ext4Error::BufferTooShort)
        } else {
            let bg = Ext4BlockGroup::parse(data, offset);
            proof {
                let image = data@.subrange(offset as int, offset + BLOCK_GROUP_DESC_SIZE);
                let c = choose|x: Ext4BlockGroup| x.spec_to_bytes() == image;
                Ext4BlockGroup::lemma_image_injective(c, bg);
            }
            Ok(bg)
        }
    }

    /// Reads the descriptor of group `block_group_idx` from the device.
    ///
    /// Reads the block that holds it and decodes the descriptor at its
    /// offset in that block with `decode_at`: the result is what decoding
    /// gives for the bytes the device answered, so it fails exactly when the
    /// device returns too few bytes.
    pub fn load<D: BlockDevice + ?Sized>(
        block_device: &D,
        super_block: &Ext4Superblock,
        block_group_idx: usize,
    ) -> (r: Result<Self, Ext4Error>)
        requires
            Self::spec_descriptor_location_ok(*super_block, block_group_idx as int),
        ensures
            exists|block: Seq<u8>|
                {
                    &&& #[trigger] block_device.spec_read(
                        Self::spec_descriptor_block_pos(*super_block, block_group_idx as int)
                            as usize,
                        block,
                    )
                    &&& r == Self::spec_decode_at(
                        block,
                        Self::spec_descriptor_offset(*super_block, block_group_idx as int),
                    )
                },
            r matches Err(e) ==> e == Ext4Error::BufferTooShort,
    {
        let (block_pos, offset) = Ext4BlockGroup::descriptor_location(super_block, block_group_idx);
        let data = block_device.read_offset(block_pos);
        let r = Ext4BlockGroup::decode_at(data.as_slice(), offset);
        assert(block_device.spec_read(
            Self::spec_descriptor_block_pos(*super_block, block_group_idx as int) as usize,
            data@,
        ));
        r
    }

    /// Writes the descriptor's image at its position on the device.
    pub fn sync_block_group_to_disk<D: BlockDevice + ?Sized>(
        &self,
        block_device: &D,
        bgid: usize,
        super_block: &Ext4Superblock,
    ) -> (r: Result<(), Ext4Error>)
        requires
            Self::spec_descriptor_location_ok(*super_block, bgid as int),
        ensures
            block_device.spec_write_requested(
                Self::spec_descriptor_pos(*super_block, bgid as int) as usize,
                self.spec_to_bytes(),
            ),
            r is Ok,
    {
        let (block_pos, offset) = Ext4BlockGroup::descriptor_location(super_block, bgid);
        let data = self.to_bytes();
        block_device.write_offset(block_pos + offset, data.as_slice());
        Ok(())
    }

    /// Computes the descriptor checksum of group `bgid`. The descriptor is
    /// left as it was.
    pub fn get_block_group_checksum(&mut self, bgid: u32, super_block: &Ext4Superblock) -> (r: u16)
        requires
            super_block.spec_desc_size() <= BLOCK_GROUP_DESC_SIZE,
        ensures
            *final(self) == *old(self),
            r == old(self).spec_block_group_checksum(*super_block, bgid),
    {
        let desc_size = super_block.desc_size();
        let orig_checksum = self.checksum;

        // The checksum is computed with the checksum field set to 0.
        self.checksum = 0;
        assert(*self == old(self).with_checksum(0));

        let uuid = super_block.uuid();
        let mut checksum = ext4_crc32c(EXT4_CRC32_INIT, uuid.as_slice(), 16);
        assert(uuid@.take(16) =~= super_block.spec_uuid());

        let mut id_bytes: Vec<u8> = Vec::new();
        push_u32_le(&mut id_bytes, bgid);
        checksum = ext4_crc32c(checksum, id_bytes.as_slice(), 4);
        assert(id_bytes@.take(4) =~= u32_le_seq(bgid));

        let image = self.to_bytes();
        checksum = ext4_crc32c(checksum, image.as_slice(), desc_size as u32);

        self.checksum = orig_checksum;
        (checksum & 0xFFFF) as u16
    }

    /// Sets the stored checksum to the descriptor checksum of group `bgid`.
    pub fn set_block_group_checksum(&mut self, bgid: u32, super_block: &Ext4Superblock)
        requires
            super_block.spec_desc_size() <= BLOCK_GROUP_DESC_SIZE,
        ensures
            *final(self) == old(self).with_checksum(
                old(self).spec_block_group_checksum(*super_block, bgid),
            ),
    {
        let csum = self.get_block_group_checksum(bgid, super_block);
        self.checksum = csum;
    }

    /// Sets the checksum of group `bgid` (taken as a `u32`) and writes the
    /// descriptor to the device.
    pub fn sync_to_disk_with_csum<D: BlockDevice + ?Sized>(
        &mut self,
        block_device: &D,
        bgid: usize,
        super_block: &Ext4Superblock,
    ) -> (r: Result<(), Ext4Error>)
        requires
            super_block.spec_desc_size() <= BLOCK_GROUP_DESC_SIZE,
            Self::spec_descriptor_location_ok(*super_block, bgid as int),
        ensures
            *final(self) == old(self).with_checksum(
                old(self).spec_block_group_checksum(*super_block, bgid as u32),
            ),
            block_device.spec_write_requested(
                Self::spec_descriptor_pos(*super_block, bgid as int) as usize,
                final(self).spec_to_bytes(),
            ),
            r is Ok,
    {
        self.set_block_group_checksum(bgid as u32, super_block);
        self.sync_block_group_to_disk(block_device, bgid, super_block)
    }
}

impl Ext4BlockGroup {
    /// Decoding the image of a descriptor gives the descriptor back.
    pub proof fn lemma_decode_image<'a>(self, v: &'a [u8])
        requires
            v@ == self.spec_to_bytes(),
        ensures
            <Ext4BlockGroup as vstd::std_specs::convert::TryFromSpec<&'a [u8]>>::try_from_spec(v)
                == Ok::<Ext4BlockGroup, Ext4Error>(self),
    {
        let image = v@.subrange(0, BLOCK_GROUP_DESC_SIZE as int);
        assert(image =~= self.spec_to_bytes());
        let c = choose|x: Ext4BlockGroup| x.spec_to_bytes() == image;
        Ext4BlockGroup::lemma_image_injective(c, self);
    }
}

impl<'a> TryFrom<&'a [u8]> for Ext4BlockGroup {
    type Error = Ext4Error;

    /// Decodes a descriptor from the first `BLOCK_GROUP_DESC_SIZE` bytes of
    /// `data`; fails when there are fewer.
    fn try_from(data: &'a [u8]) -> (r: Result<Self, Ext4Error>)
        ensures
            r is Ok <==> data@.len() >= BLOCK_GROUP_DESC_SIZE,
            r matches Err(e) ==> e == Ext4Error::BufferTooShort,
            r matches Ok(bg) ==> bg.spec_to_bytes() == data@.subrange(0, BLOCK_GROUP_DESC_SIZE as int),
    {
        let r = Ext4BlockGroup::decode_at(data, 0);
        proof {
            if let Ok(bg) = r {
                let image = data@.subrange(0, BLOCK_GROUP_DESC_SIZE as int);
                let c = choose|x: Ext4BlockGroup| x.spec_to_bytes() == image;
                Ext4BlockGroup::lemma_image_injective(c, bg);
            }
        }
        r
    }
}

impl<'a> vstd::std_specs::convert::TryFromSpecImpl<&'a [u8]> for Ext4BlockGroup {
    open spec fn obeys_try_from_spec() -> bool {
        true
    }

    /// The descriptor whose image is the first `BLOCK_GROUP_DESC_SIZE` bytes.
    open spec fn try_from_spec(v: &'a [u8]) -> Result<Self, Ext4Error> {
        if v@.len() < BLOCK_GROUP_DESC_SIZE {
            Err(Ext4Error::BufferTooShort)
        } else {
            Ok(choose|x: Ext4BlockGroup| x.spec_to_bytes() == v@.subrange(0, BLOCK_GROUP_DESC_SIZE as int))
        }
    }
}

} // verus!
