//! Inodes: the on-disk inode record, its checksum, and where it lives.
use vstd::prelude::*;
use crate::block_group::Ext4BlockGroup;
use crate::crc::{crc32c, ext4_crc32c, lemma_crc32c_append, EXT4_CRC32_INIT};
use crate::device::{BlockDevice, Ext4Error, BLOCK_SIZE};
use crate::superblock::Ext4Superblock;
use crate::bytes::{
    le_u16, le_u32, lemma_le_u16_bytes, lemma_le_u16_of_bytes, lemma_le_u32_bytes, lemma_le_u32_of_bytes, lemma_u16_bytes_injective,
    lemma_u32_bytes_injective, push_u32_le, read_u16, read_u32_array, read_u32, u16_byte, u16_byte_at, u32_byte, u32_byte_at, u32_le_seq,
};

verus! {

/// Size in bytes of the image of an `Ext4Inode`.
pub const EXT4_INODE_IMAGE_SIZE: usize = 156;

/// How many bytes from the start of an inode the checksum may cover; the
/// checksum covers the first `inode_size` of them (see
/// `Ext4Inode::spec_checksum_image`).
pub const INODE_CHECKSUM_SPAN: usize = 0x100;

/// The OS-dependent second block of an inode (the Linux layout).
#[derive(Debug, Clone, Copy, Default, PartialEq, Eq)]
pub struct Linux2 {
    /// High 16 bits of the block count (was `l_i_reserved1`).
    pub l_i_blocks_high: u16,
    /// High 16 bits of the extended attribute block.
    pub l_i_file_acl_high: u16,
    /// High 16 bits of the owner's uid.
    pub l_i_uid_high: u16,
    /// High 16 bits of the group's gid.
    pub l_i_gid_high: u16,
    /// Low 16 bits of the inode checksum: crc32c(uuid + inum + inode), LE.
    pub l_i_checksum_lo: u16,
    pub l_i_reserved: u16,
}

impl Linux2 {
    /// Byte `i` of the 12-byte on-disk image.
    #[verifier::opaque]
    pub closed spec fn spec_byte(self, i: int) -> u8 {
        if i < 2 {
            u16_byte(self.l_i_blocks_high, i)
        } else if i < 4 {
            u16_byte(self.l_i_file_acl_high, i - 2)
        } else if i < 6 {
            u16_byte(self.l_i_uid_high, i - 4)
        } else if i < 8 {
            u16_byte(self.l_i_gid_high, i - 6)
        } else if i < 10 {
            u16_byte(self.l_i_checksum_lo, i - 8)
        } else {
            u16_byte(self.l_i_reserved, i - 10)
        }
    }

    /// The 12-byte on-disk image: the fields in declaration order, each
    /// little-endian, with no padding.
    pub open spec fn spec_to_bytes(self) -> Seq<u8> {
        Seq::new(12, |i: int| self.spec_byte(i))
    }

    fn byte(&self, i: usize) -> (b: u8)
        requires
            i < 12,
        ensures
            b == self.spec_byte(i as int),
    {
        proof {
            reveal(Linux2::spec_byte);
        }
        if i < 2 {
            u16_byte_at(self.l_i_blocks_high, i)
        } else if i < 4 {
            u16_byte_at(self.l_i_file_acl_high, i - 2)
        } else if i < 6 {
            u16_byte_at(self.l_i_uid_high, i - 4)
        } else if i < 8 {
            u16_byte_at(self.l_i_gid_high, i - 6)
        } else if i < 10 {
            u16_byte_at(self.l_i_checksum_lo, i - 8)
        } else {
            u16_byte_at(self.l_i_reserved, i - 10)
        }
    }

    /// The on-disk image of `self`.
    pub fn to_bytes(&self) -> (r: Vec<u8>)
        ensures
            r@ == self.spec_to_bytes(),
    {
        let mut v: Vec<u8> = Vec::new();
        let mut i: usize = 0;
        while i < 12
            invariant
                i <= 12,
                v@.len() == i,
                forall|k: int| 0 <= k < i ==> v@[k] == self.spec_byte(k),
            decreases 12 - i,
        {
            let b: u8 = self.byte(i);
            v.push(b);
            i = i + 1;
        }
        assert(v@ =~= self.spec_to_bytes());
        v
    }

    /// Decodes the image that starts at `off` in `data`.
    pub fn parse(data: &[u8], off: usize) -> (r: Self)
        requires
            off + 12 <= data@.len(),
        ensures
            r.spec_to_bytes() == data@.subrange(off as int, off + 12),
    {
        let len: usize = data.len();
        let l_i_blocks_high: u16 = read_u16(data, off);
        let l_i_file_acl_high: u16 = read_u16(data, off + 2);
        let l_i_uid_high: u16 = read_u16(data, off + 4);
        let l_i_gid_high: u16 = read_u16(data, off + 6);
        let l_i_checksum_lo: u16 = read_u16(data, off + 8);
        let l_i_reserved: u16 = read_u16(data, off + 10);
        let r = Linux2 {
            l_i_blocks_high,
            l_i_file_acl_high,
            l_i_uid_high,
            l_i_gid_high,
            l_i_checksum_lo,
            l_i_reserved,
        };
        proof {
            Linux2::lemma_parse_part0(r, data@, off as int);
            Linux2::lemma_parse_join(r, data@, off as int);
        }
        r
    }

    proof fn lemma_parse_join(r: Self, data: Seq<u8>, off: int)
        requires
            0 <= off,
            off + 12 <= data.len(),
            forall|i: int| 0 <= i < 12 ==> #[trigger] r.spec_byte(i) == data[off + i],
        ensures
            r.spec_to_bytes() == data.subrange(off, off + 12),
    {
        assert(r.spec_to_bytes() =~= data.subrange(off, off + 12));
    }

    proof fn lemma_parse_part0(r: Self, data: Seq<u8>, off: int)
        requires
            0 <= off,
            off + 12 <= data.len(),
            r.l_i_blocks_high == le_u16(data, off),
            r.l_i_file_acl_high == le_u16(data, off + 2),
            r.l_i_uid_high == le_u16(data, off + 4),
            r.l_i_gid_high == le_u16(data, off + 6),
            r.l_i_checksum_lo == le_u16(data, off + 8),
            r.l_i_reserved == le_u16(data, off + 10),
        ensures
            forall|i: int| 0 <= i < 12 ==> #[trigger] r.spec_byte(i) == data[off + i],
    {
        assert forall|i: int| 0 <= i < 2 implies #[trigger] r.spec_byte(i) == data[off + i] by {
            reveal(Linux2::spec_byte);
            lemma_le_u16_bytes(data, off);
        }
        assert forall|i: int| 2 <= i < 4 implies #[trigger] r.spec_byte(i) == data[off + i] by {
            reveal(Linux2::spec_byte);
            lemma_le_u16_bytes(data, off + 2);
        }
        assert forall|i: int| 4 <= i < 6 implies #[trigger] r.spec_byte(i) == data[off + i] by {
            reveal(Linux2::spec_byte);
            lemma_le_u16_bytes(data, off + 4);
        }
        assert forall|i: int| 6 <= i < 8 implies #[trigger] r.spec_byte(i) == data[off + i] by {
            reveal(Linux2::spec_byte);
            lemma_le_u16_bytes(data, off + 6);
        }
        assert forall|i: int| 8 <= i < 10 implies #[trigger] r.spec_byte(i) == data[off + i] by {
            reveal(Linux2::spec_byte);
            lemma_le_u16_bytes(data, off + 8);
        }
        assert forall|i: int| 10 <= i < 12 implies #[trigger] r.spec_byte(i) == data[off + i] by {
            reveal(Linux2::spec_byte);
            lemma_le_u16_bytes(data, off + 10);
        }
    }

    proof fn lemma_injective_part0(a: Self, b: Self)
        requires
            a.spec_to_bytes() == b.spec_to_bytes(),
        ensures
            a.l_i_blocks_high == b.l_i_blocks_high,
            a.l_i_file_acl_high == b.l_i_file_acl_high,
            a.l_i_uid_high == b.l_i_uid_high,
            a.l_i_gid_high == b.l_i_gid_high,
            a.l_i_checksum_lo == b.l_i_checksum_lo,
            a.l_i_reserved == b.l_i_reserved,
    {
        Linux2::lemma_same_image_bytes(a, b);
        assert forall|k: int| 0 <= k < 2 implies #[trigger] u16_byte(a.l_i_blocks_high, k) == u16_byte(b.l_i_blocks_high, k) by {
            reveal(Linux2::spec_byte);
            assert(a.spec_byte(k) == b.spec_byte(k));
        }
        lemma_u16_bytes_injective(a.l_i_blocks_high, b.l_i_blocks_high);
        assert forall|k: int| 0 <= k < 2 implies #[trigger] u16_byte(a.l_i_file_acl_high, k) == u16_byte(b.l_i_file_acl_high, k) by {
            reveal(Linux2::spec_byte);
            assert(a.spec_byte(2 + k) == b.spec_byte(2 + k));
        }
        lemma_u16_bytes_injective(a.l_i_file_acl_high, b.l_i_file_acl_high);
        assert forall|k: int| 0 <= k < 2 implies #[trigger] u16_byte(a.l_i_uid_high, k) == u16_byte(b.l_i_uid_high, k) by {
            reveal(Linux2::spec_byte);
            assert(a.spec_byte(4 + k) == b.spec_byte(4 + k));
        }
        lemma_u16_bytes_injective(a.l_i_uid_high, b.l_i_uid_high);
        assert forall|k: int| 0 <= k < 2 implies #[trigger] u16_byte(a.l_i_gid_high, k) == u16_byte(b.l_i_gid_high, k) by {
            reveal(Linux2::spec_byte);
            assert(a.spec_byte(6 + k) == b.spec_byte(6 + k));
        }
        lemma_u16_bytes_injective(a.l_i_gid_high, b.l_i_gid_high);
        assert forall|k: int| 0 <= k < 2 implies #[trigger] u16_byte(a.l_i_checksum_lo, k) == u16_byte(b.l_i_checksum_lo, k) by {
            reveal(Linux2::spec_byte);
            assert(a.spec_byte(8 + k) == b.spec_byte(8 + k));
        }
        lemma_u16_bytes_injective(a.l_i_checksum_lo, b.l_i_checksum_lo);
        assert forall|k: int| 0 <= k < 2 implies #[trigger] u16_byte(a.l_i_reserved, k) == u16_byte(b.l_i_reserved, k) by {
            reveal(Linux2::spec_byte);
            assert(a.spec_byte(10 + k) == b.spec_byte(10 + k));
        }
        lemma_u16_bytes_injective(a.l_i_reserved, b.l_i_reserved);
    }

    proof fn lemma_same_image_bytes(a: Self, b: Self)
        requires
            a.spec_to_bytes() == b.spec_to_bytes(),
        ensures
            forall|i: int| 0 <= i < 12 ==> #[trigger] a.spec_byte(i) == b.spec_byte(i),
    {
        assert forall|i: int| 0 <= i < 12 implies #[trigger] a.spec_byte(i) == b.spec_byte(i) by {
            assert(a.spec_to_bytes()[i] == a.spec_byte(i));
            assert(b.spec_to_bytes()[i] == b.spec_byte(i));
        }
    }

    /// Two values with the same image are equal.
    pub proof fn lemma_image_injective(a: Self, b: Self)
        requires
            a.spec_to_bytes() == b.spec_to_bytes(),
        ensures
            a == b,
    {
        Linux2::lemma_injective_part0(a, b);
    }

    #[verifier::rlimit(50)]
    proof fn lemma_field_offsets_part0(self)
        ensures
            self.l_i_blocks_high == le_u16(self.spec_to_bytes(), 0),
            self.l_i_file_acl_high == le_u16(self.spec_to_bytes(), 2),
            self.l_i_uid_high == le_u16(self.spec_to_bytes(), 4),
            self.l_i_gid_high == le_u16(self.spec_to_bytes(), 6),
            self.l_i_checksum_lo == le_u16(self.spec_to_bytes(), 8),
            self.l_i_reserved == le_u16(self.spec_to_bytes(), 10),
    {
        let s = self.spec_to_bytes();
        assert forall|k: int| 0 <= k < 2 implies s[k] == #[trigger] u16_byte(self.l_i_blocks_high, k) by {
            reveal(Linux2::spec_byte);
        }
        lemma_le_u16_of_bytes(s, 0, self.l_i_blocks_high);
        assert forall|k: int| 0 <= k < 2 implies s[2 + k] == #[trigger] u16_byte(self.l_i_file_acl_high, k) by {
            reveal(Linux2::spec_byte);
        }
        lemma_le_u16_of_bytes(s, 2, self.l_i_file_acl_high);
        assert forall|k: int| 0 <= k < 2 implies s[4 + k] == #[trigger] u16_byte(self.l_i_uid_high, k) by {
            reveal(Linux2::spec_byte);
        }
        lemma_le_u16_of_bytes(s, 4, self.l_i_uid_high);
        assert forall|k: int| 0 <= k < 2 implies s[6 + k] == #[trigger] u16_byte(self.l_i_gid_high, k) by {
            reveal(Linux2::spec_byte);
        }
        lemma_le_u16_of_bytes(s, 6, self.l_i_gid_high);
        assert forall|k: int| 0 <= k < 2 implies s[8 + k] == #[trigger] u16_byte(self.l_i_checksum_lo, k) by {
            reveal(Linux2::spec_byte);
        }
        lemma_le_u16_of_bytes(s, 8, self.l_i_checksum_lo);
        assert forall|k: int| 0 <= k < 2 implies s[10 + k] == #[trigger] u16_byte(self.l_i_reserved, k) by {
            reveal(Linux2::spec_byte);
        }
        lemma_le_u16_of_bytes(s, 10, self.l_i_reserved);
    }

    /// Where each field sits in the image: at its offset, little-endian.
    pub proof fn lemma_field_offsets(self)
        ensures
            self.l_i_blocks_high == le_u16(self.spec_to_bytes(), 0),
            self.l_i_file_acl_high == le_u16(self.spec_to_bytes(), 2),
            self.l_i_uid_high == le_u16(self.spec_to_bytes(), 4),
            self.l_i_gid_high == le_u16(self.spec_to_bytes(), 6),
            self.l_i_checksum_lo == le_u16(self.spec_to_bytes(), 8),
            self.l_i_reserved == le_u16(self.spec_to_bytes(), 10),
    {
        self.lemma_field_offsets_part0();
    }
}

/// An ext4 inode record.
#[derive(Debug, Default, Clone, Copy, PartialEq, Eq)]
pub struct Ext4Inode {
    pub mode: u16,
    pub uid: u16,
    pub size: u32,
    pub atime: u32,
    pub ctime: u32,
    pub mtime: u32,
    pub dtime: u32,
    pub gid: u16,
    pub links_count: u16,
    pub blocks: u32,
    pub flags: u32,
    pub osd1: u32,
    pub block: [u32; 15],
    pub generation: u32,
    pub file_acl: u32,
    pub size_hi: u32,
    /// Obsolete fragment address.
    pub faddr: u32,
    /// The OS-dependent second block.
    pub osd2: Linux2,
    pub i_extra_isize: u16,
    /// High 16 bits of the inode checksum: crc32c(uuid + inum + inode), BE.
    pub i_checksum_hi: u16,
    /// Extra change time (nsec << 2 | epoch).
    pub i_ctime_extra: u32,
    /// Extra modification time (nsec << 2 | epoch).
    pub i_mtime_extra: u32,
    /// Extra access time (nsec << 2 | epoch).
    pub i_atime_extra: u32,
    /// Creation time.
    pub i_crtime: u32,
    /// Extra creation time (nsec << 2 | epoch).
    pub i_crtime_extra: u32,
    /// High 32 bits of the 64-bit version.
    pub i_version_hi: u32,
}

impl Ext4Inode {
    /// Byte `i` of the 156-byte on-disk image.
    #[verifier::opaque]
    pub closed spec fn spec_byte(self, i: int) -> u8 {
        if i < 40 {
            self.image_part0(i)
        } else if i < 148 {
            self.image_part1(i)
        } else {
            self.image_part2(i)
        }
    }

    #[verifier::opaque]
    spec fn image_part0(self, i: int) -> u8 {
        if i < 2 {
            u16_byte(self.mode, i)
        } else if i < 4 {
            u16_byte(self.uid, i - 2)
        } else if i < 8 {
            u32_byte(self.size, i - 4)
        } else if i < 12 {
            u32_byte(self.atime, i - 8)
        } else if i < 16 {
            u32_byte(self.ctime, i - 12)
        } else if i < 20 {
            u32_byte(self.mtime, i - 16)
        } else if i < 24 {
            u32_byte(self.dtime, i - 20)
        } else if i < 26 {
            u16_byte(self.gid, i - 24)
        } else if i < 28 {
            u16_byte(self.links_count, i - 26)
        } else if i < 32 {
            u32_byte(self.blocks, i - 28)
        } else if i < 36 {
            u32_byte(self.flags, i - 32)
        } else {
            u32_byte(self.osd1, i - 36)
        }
    }

    #[verifier::opaque]
    spec fn image_part1(self, i: int) -> u8 {
        if i < 100 {
            u32_byte(self.block[(i - 40) / 4], (i - 40) % 4)
        } else if i < 104 {
            u32_byte(self.generation, i - 100)
        } else if i < 108 {
            u32_byte(self.file_acl, i - 104)
        } else if i < 112 {
            u32_byte(self.size_hi, i - 108)
        } else if i < 116 {
            u32_byte(self.faddr, i - 112)
        } else if i < 128 {
            self.osd2.spec_byte(i - 116)
        } else if i < 130 {
            u16_byte(self.i_extra_isize, i - 128)
        } else if i < 132 {
            u16_byte(self.i_checksum_hi, i - 130)
        } else if i < 136 {
            u32_byte(self.i_ctime_extra, i - 132)
        } else if i < 140 {
            u32_byte(self.i_mtime_extra, i - 136)
        } else if i < 144 {
            u32_byte(self.i_atime_extra, i - 140)
        } else {
            u32_byte(self.i_crtime, i - 144)
        }
    }

    #[verifier::opaque]
    spec fn image_part2(self, i: int) -> u8 {
        if i < 152 {
            u32_byte(self.i_crtime_extra, i - 148)
        } else {
            u32_byte(self.i_version_hi, i - 152)
        }
    }

    /// The 156-byte on-disk image: the fields in declaration order, each
    /// little-endian, with no padding.
    pub open spec fn spec_to_bytes(self) -> Seq<u8> {
        Seq::new(156, |i: int| self.spec_byte(i))
    }

    fn byte(&self, i: usize) -> (b: u8)
        requires
            i < 156,
        ensures
            b == self.spec_byte(i as int),
    {
        proof {
            reveal(Ext4Inode::spec_byte);
        }
        if i < 40 {
            self.byte_part0(i)
        } else if i < 148 {
            self.byte_part1(i)
        } else {
            self.byte_part2(i)
        }
    }

    fn byte_part0(&self, i: usize) -> (b: u8)
        requires
            i < 40,
        ensures
            b == self.image_part0(i as int),
    {
        proof {
            reveal(Ext4Inode::image_part0);
        }
        if i < 2 {
            u16_byte_at(self.mode, i)
        } else if i < 4 {
            u16_byte_at(self.uid, i - 2)
        } else if i < 8 {
            u32_byte_at(self.size, i - 4)
        } else if i < 12 {
            u32_byte_at(self.atime, i - 8)
        } else if i < 16 {
            u32_byte_at(self.ctime, i - 12)
        } else if i < 20 {
            u32_byte_at(self.mtime, i - 16)
        } else if i < 24 {
            u32_byte_at(self.dtime, i - 20)
        } else if i < 26 {
            u16_byte_at(self.gid, i - 24)
        } else if i < 28 {
            u16_byte_at(self.links_count, i - 26)
        } else if i < 32 {
            u32_byte_at(self.blocks, i - 28)
        } else if i < 36 {
            u32_byte_at(self.flags, i - 32)
        } else {
            u32_byte_at(self.osd1, i - 36)
        }
    }

    fn byte_part1(&self, i: usize) -> (b: u8)
        requires
            40 <= i < 148,
        ensures
            b == self.image_part1(i as int),
    {
        proof {
            reveal(Ext4Inode::image_part1);
        }
        if i < 100 {
            u32_byte_at(self.block[(i - 40) / 4], (i - 40) % 4)
        } else if i < 104 {
            u32_byte_at(self.generation, i - 100)
        } else if i < 108 {
            u32_byte_at(self.file_acl, i - 104)
        } else if i < 112 {
            u32_byte_at(self.size_hi, i - 108)
        } else if i < 116 {
            u32_byte_at(self.faddr, i - 112)
        } else if i < 128 {
            self.osd2.byte(i - 116)
        } else if i < 130 {
            u16_byte_at(self.i_extra_isize, i - 128)
        } else if i < 132 {
            u16_byte_at(self.i_checksum_hi, i - 130)
        } else if i < 136 {
            u32_byte_at(self.i_ctime_extra, i - 132)
        } else if i < 140 {
            u32_byte_at(self.i_mtime_extra, i - 136)
        } else if i < 144 {
            u32_byte_at(self.i_atime_extra, i - 140)
        } else {
            u32_byte_at(self.i_crtime, i - 144)
        }
    }

    fn byte_part2(&self, i: usize) -> (b: u8)
        requires
            148 <= i < 156,
        ensures
            b == self.image_part2(i as int),
    {
        proof {
            reveal(Ext4Inode::image_part2);
        }
        if i < 152 {
            u32_byte_at(self.i_crtime_extra, i - 148)
        } else {
            u32_byte_at(self.i_version_hi, i - 152)
        }
    }

    /// The on-disk image of `self`.
    pub fn to_bytes(&self) -> (r: Vec<u8>)
        ensures
            r@ == self.spec_to_bytes(),
    {
        let mut v: Vec<u8> = Vec::new();
        let mut i: usize = 0;
        while i < 156
            invariant
                i <= 156,
                v@.len() == i,
                forall|k: int| 0 <= k < i ==> v@[k] == self.spec_byte(k),
            decreases 156 - i,
        {
            let b: u8 = self.byte(i);
            v.push(b);
            i = i + 1;
        }
        assert(v@ =~= self.spec_to_bytes());
        v
    }

    /// Decodes the image that starts at `off` in `data`.
    #[verifier::rlimit(100)]
    pub fn parse(data: &[u8], off: usize) -> (r: Self)
        requires
            off + 156 <= data@.len(),
        ensures
            r.spec_to_bytes() == data@.subrange(off as int, off + 156),
    {
        let len: usize = data.len();
        let mode: u16 = read_u16(data, off);
        let uid: u16 = read_u16(data, off + 2);
        let size: u32 = read_u32(data, off + 4);
        let atime: u32 = read_u32(data, off + 8);
        let ctime: u32 = read_u32(data, off + 12);
        let mtime: u32 = read_u32(data, off + 16);
        let dtime: u32 = read_u32(data, off + 20);
        let gid: u16 = read_u16(data, off + 24);
        let links_count: u16 = read_u16(data, off + 26);
        let blocks: u32 = read_u32(data, off + 28);
        let flags: u32 = read_u32(data, off + 32);
        let osd1: u32 = read_u32(data, off + 36);
        let mut block: [u32; 15] = [0u32; 15];
        read_u32_array(&mut block, data, off + 40);
        let generation: u32 = read_u32(data, off + 100);
        let file_acl: u32 = read_u32(data, off + 104);
        let size_hi: u32 = read_u32(data, off + 108);
        let faddr: u32 = read_u32(data, off + 112);
        let osd2: Linux2 = Linux2::parse(data, off + 116);
        let i_extra_isize: u16 = read_u16(data, off + 128);
        let i_checksum_hi: u16 = read_u16(data, off + 130);
        let i_ctime_extra: u32 = read_u32(data, off + 132);
        let i_mtime_extra: u32 = read_u32(data, off + 136);
        let i_atime_extra: u32 = read_u32(data, off + 140);
        let i_crtime: u32 = read_u32(data, off + 144);
        let i_crtime_extra: u32 = read_u32(data, off + 148);
        let i_version_hi: u32 = read_u32(data, off + 152);
        let r = Ext4Inode {
            mode,
            uid,
            size,
            atime,
            ctime,
            mtime,
            dtime,
            gid,
            links_count,
            blocks,
            flags,
            osd1,
            block,
            generation,
            file_acl,
            size_hi,
            faddr,
            osd2,
            i_extra_isize,
            i_checksum_hi,
            i_ctime_extra,
            i_mtime_extra,
            i_atime_extra,
            i_crtime,
            i_crtime_extra,
            i_version_hi,
        };
        proof {
            Ext4Inode::lemma_parse_part0(r, data@, off as int);
            Ext4Inode::lemma_parse_part1(r, data@, off as int);
            Ext4Inode::lemma_parse_part2(r, data@, off as int);
            Ext4Inode::lemma_parse_join(r, data@, off as int);
        }
        r
    }

    proof fn lemma_parse_join(r: Self, data: Seq<u8>, off: int)
        requires
            0 <= off,
            off + 156 <= data.len(),
            forall|i: int| 0 <= i < 40 ==> #[trigger] r.spec_byte(i) == data[off + i],
            forall|i: int| 40 <= i < 148 ==> #[trigger] r.spec_byte(i) == data[off + i],
            forall|i: int| 148 <= i < 156 ==> #[trigger] r.spec_byte(i) == data[off + i],
        ensures
            r.spec_to_bytes() == data.subrange(off, off + 156),
    {
        assert(r.spec_to_bytes() =~= data.subrange(off, off + 156));
    }

    proof fn lemma_parse_part0(r: Self, data: Seq<u8>, off: int)
        requires
            0 <= off,
            off + 156 <= data.len(),
            r.mode == le_u16(data, off),
            r.uid == le_u16(data, off + 2),
            r.size == le_u32(data, off + 4),
            r.atime == le_u32(data, off + 8),
            r.ctime == le_u32(data, off + 12),
            r.mtime == le_u32(data, off + 16),
            r.dtime == le_u32(data, off + 20),
            r.gid == le_u16(data, off + 24),
            r.links_count == le_u16(data, off + 26),
            r.blocks == le_u32(data, off + 28),
            r.flags == le_u32(data, off + 32),
            r.osd1 == le_u32(data, off + 36),
        ensures
            forall|i: int| 0 <= i < 40 ==> #[trigger] r.spec_byte(i) == data[off + i],
    {
        assert forall|i: int| 0 <= i < 2 implies #[trigger] r.spec_byte(i) == data[off + i] by {
            reveal(Ext4Inode::spec_byte);
            reveal(Ext4Inode::image_part0);
            lemma_le_u16_bytes(data, off);
        }
        assert forall|i: int| 2 <= i < 4 implies #[trigger] r.spec_byte(i) == data[off + i] by {
            reveal(Ext4Inode::spec_byte);
            reveal(Ext4Inode::image_part0);
            lemma_le_u16_bytes(data, off + 2);
        }
        assert forall|i: int| 4 <= i < 8 implies #[trigger] r.spec_byte(i) == data[off + i] by {
            reveal(Ext4Inode::spec_byte);
            reveal(Ext4Inode::image_part0);
            lemma_le_u32_bytes(data, off + 4);
        }
        assert forall|i: int| 8 <= i < 12 implies #[trigger] r.spec_byte(i) == data[off + i] by {
            reveal(Ext4Inode::spec_byte);
            reveal(Ext4Inode::image_part0);
            lemma_le_u32_bytes(data, off + 8);
        }
        assert forall|i: int| 12 <= i < 16 implies #[trigger] r.spec_byte(i) == data[off + i] by {
            reveal(Ext4Inode::spec_byte);
            reveal(Ext4Inode::image_part0);
            lemma_le_u32_bytes(data, off + 12);
        }
        assert forall|i: int| 16 <= i < 20 implies #[trigger] r.spec_byte(i) == data[off + i] by {
            reveal(Ext4Inode::spec_byte);
            reveal(Ext4Inode::image_part0);
            lemma_le_u32_bytes(data, off + 16);
        }
        assert forall|i: int| 20 <= i < 24 implies #[trigger] r.spec_byte(i) == data[off + i] by {
            reveal(Ext4Inode::spec_byte);
            reveal(Ext4Inode::image_part0);
            lemma_le_u32_bytes(data, off + 20);
        }
        assert forall|i: int| 24 <= i < 26 implies #[trigger] r.spec_byte(i) == data[off + i] by {
            reveal(Ext4Inode::spec_byte);
            reveal(Ext4Inode::image_part0);
            lemma_le_u16_bytes(data, off + 24);
        }
        assert forall|i: int| 26 <= i < 28 implies #[trigger] r.spec_byte(i) == data[off + i] by {
            reveal(Ext4Inode::spec_byte);
            reveal(Ext4Inode::image_part0);
            lemma_le_u16_bytes(data, off + 26);
        }
        assert forall|i: int| 28 <= i < 32 implies #[trigger] r.spec_byte(i) == data[off + i] by {
            reveal(Ext4Inode::spec_byte);
            reveal(Ext4Inode::image_part0);
            lemma_le_u32_bytes(data, off + 28);
        }
        assert forall|i: int| 32 <= i < 36 implies #[trigger] r.spec_byte(i) == data[off + i] by {
            reveal(Ext4Inode::spec_byte);
            reveal(Ext4Inode::image_part0);
            lemma_le_u32_bytes(data, off + 32);
        }
        assert forall|i: int| 36 <= i < 40 implies #[trigger] r.spec_byte(i) == data[off + i] by {
            reveal(Ext4Inode::spec_byte);
            reveal(Ext4Inode::image_part0);
            lemma_le_u32_bytes(data, off + 36);
        }
    }

    proof fn lemma_parse_part1(r: Self, data: Seq<u8>, off: int)
        requires
            0 <= off,
            off + 156 <= data.len(),
            forall|k: int| 0 <= k < 15 ==> r.block[k] == le_u32(data, off + 40 + 4 * k),
            r.generation == le_u32(data, off + 100),
            r.file_acl == le_u32(data, off + 104),
            r.size_hi == le_u32(data, off + 108),
            r.faddr == le_u32(data, off + 112),
            r.osd2.spec_to_bytes() == data.subrange(off + 116, off + 116 + 12),
            r.i_extra_isize == le_u16(data, off + 128),
            r.i_checksum_hi == le_u16(data, off + 130),
            r.i_ctime_extra == le_u32(data, off + 132),
            r.i_mtime_extra == le_u32(data, off + 136),
            r.i_atime_extra == le_u32(data, off + 140),
            r.i_crtime == le_u32(data, off + 144),
        ensures
            forall|i: int| 40 <= i < 148 ==> #[trigger] r.spec_byte(i) == data[off + i],
    {
        assert forall|i: int| 40 <= i < 100 implies #[trigger] r.spec_byte(i) == data[off + i] by {
            reveal(Ext4Inode::spec_byte);
            reveal(Ext4Inode::image_part1);
            lemma_le_u32_bytes(data, off + 40 + 4 * ((i - 40) / 4));
        }
        assert forall|i: int| 100 <= i < 104 implies #[trigger] r.spec_byte(i) == data[off + i] by {
            reveal(Ext4Inode::spec_byte);
            reveal(Ext4Inode::image_part1);
            lemma_le_u32_bytes(data, off + 100);
        }
        assert forall|i: int| 104 <= i < 108 implies #[trigger] r.spec_byte(i) == data[off + i] by {
            reveal(Ext4Inode::spec_byte);
            reveal(Ext4Inode::image_part1);
            lemma_le_u32_bytes(data, off + 104);
        }
        assert forall|i: int| 108 <= i < 112 implies #[trigger] r.spec_byte(i) == data[off + i] by {
            reveal(Ext4Inode::spec_byte);
            reveal(Ext4Inode::image_part1);
            lemma_le_u32_bytes(data, off + 108);
        }
        assert forall|i: int| 112 <= i < 116 implies #[trigger] r.spec_byte(i) == data[off + i] by {
            reveal(Ext4Inode::spec_byte);
            reveal(Ext4Inode::image_part1);
            lemma_le_u32_bytes(data, off + 112);
        }
        assert forall|i: int| 116 <= i < 128 implies #[trigger] r.spec_byte(i) == data[off + i] by {
            reveal(Ext4Inode::spec_byte);
            reveal(Ext4Inode::image_part1);
            assert(r.osd2.spec_to_bytes()[i - 116] == data[off + i]);
        }
        assert forall|i: int| 128 <= i < 130 implies #[trigger] r.spec_byte(i) == data[off + i] by {
            reveal(Ext4Inode::spec_byte);
            reveal(Ext4Inode::image_part1);
            lemma_le_u16_bytes(data, off + 128);
        }
        assert forall|i: int| 130 <= i < 132 implies #[trigger] r.spec_byte(i) == data[off + i] by {
            reveal(Ext4Inode::spec_byte);
            reveal(Ext4Inode::image_part1);
            lemma_le_u16_bytes(data, off + 130);
        }
        assert forall|i: int| 132 <= i < 136 implies #[trigger] r.spec_byte(i) == data[off + i] by {
            reveal(Ext4Inode::spec_byte);
            reveal(Ext4Inode::image_part1);
            lemma_le_u32_bytes(data, off + 132);
        }
        assert forall|i: int| 136 <= i < 140 implies #[trigger] r.spec_byte(i) == data[off + i] by {
            reveal(Ext4Inode::spec_byte);
            reveal(Ext4Inode::image_part1);
            lemma_le_u32_bytes(data, off + 136);
        }
        assert forall|i: int| 140 <= i < 144 implies #[trigger] r.spec_byte(i) == data[off + i] by {
            reveal(Ext4Inode::spec_byte);
            reveal(Ext4Inode::image_part1);
            lemma_le_u32_bytes(data, off + 140);
        }
        assert forall|i: int| 144 <= i < 148 implies #[trigger] r.spec_byte(i) == data[off + i] by {
            reveal(Ext4Inode::spec_byte);
            reveal(Ext4Inode::image_part1);
            lemma_le_u32_bytes(data, off + 144);
        }
    }

    proof fn lemma_parse_part2(r: Self, data: Seq<u8>, off: int)
        requires
            0 <= off,
            off + 156 <= data.len(),
            r.i_crtime_extra == le_u32(data, off + 148),
            r.i_version_hi == le_u32(data, off + 152),
        ensures
            forall|i: int| 148 <= i < 156 ==> #[trigger] r.spec_byte(i) == data[off + i],
    {
        assert forall|i: int| 148 <= i < 152 implies #[trigger] r.spec_byte(i) == data[off + i] by {
            reveal(Ext4Inode::spec_byte);
            reveal(Ext4Inode::image_part2);
            lemma_le_u32_bytes(data, off + 148);
        }
        assert forall|i: int| 152 <= i < 156 implies #[trigger] r.spec_byte(i) == data[off + i] by {
            reveal(Ext4Inode::spec_byte);
            reveal(Ext4Inode::image_part2);
            lemma_le_u32_bytes(data, off + 152);
        }
    }

    proof fn lemma_injective_part0(a: Self, b: Self)
        requires
            a.spec_to_bytes() == b.spec_to_bytes(),
        ensures
            a.mode == b.mode,
            a.uid == b.uid,
            a.size == b.size,
            a.atime == b.atime,
            a.ctime == b.ctime,
            a.mtime == b.mtime,
            a.dtime == b.dtime,
            a.gid == b.gid,
            a.links_count == b.links_count,
            a.blocks == b.blocks,
            a.flags == b.flags,
            a.osd1 == b.osd1,
    {
        Ext4Inode::lemma_same_image_bytes(a, b);
        assert forall|k: int| 0 <= k < 2 implies #[trigger] u16_byte(a.mode, k) == u16_byte(b.mode, k) by {
            reveal(Ext4Inode::spec_byte);
            reveal(Ext4Inode::image_part0);
            assert(a.spec_byte(k) == b.spec_byte(k));
        }
        lemma_u16_bytes_injective(a.mode, b.mode);
        assert forall|k: int| 0 <= k < 2 implies #[trigger] u16_byte(a.uid, k) == u16_byte(b.uid, k) by {
            reveal(Ext4Inode::spec_byte);
            reveal(Ext4Inode::image_part0);
            assert(a.spec_byte(2 + k) == b.spec_byte(2 + k));
        }
        lemma_u16_bytes_injective(a.uid, b.uid);
        assert forall|k: int| 0 <= k < 4 implies #[trigger] u32_byte(a.size, k) == u32_byte(b.size, k) by {
            reveal(Ext4Inode::spec_byte);
            reveal(Ext4Inode::image_part0);
            assert(a.spec_byte(4 + k) == b.spec_byte(4 + k));
        }
        lemma_u32_bytes_injective(a.size, b.size);
        assert forall|k: int| 0 <= k < 4 implies #[trigger] u32_byte(a.atime, k) == u32_byte(b.atime, k) by {
            reveal(Ext4Inode::spec_byte);
            reveal(Ext4Inode::image_part0);
            assert(a.spec_byte(8 + k) == b.spec_byte(8 + k));
        }
        lemma_u32_bytes_injective(a.atime, b.atime);
        assert forall|k: int| 0 <= k < 4 implies #[trigger] u32_byte(a.ctime, k) == u32_byte(b.ctime, k) by {
            reveal(Ext4Inode::spec_byte);
            reveal(Ext4Inode::image_part0);
            assert(a.spec_byte(12 + k) == b.spec_byte(12 + k));
        }
        lemma_u32_bytes_injective(a.ctime, b.ctime);
        assert forall|k: int| 0 <= k < 4 implies #[trigger] u32_byte(a.mtime, k) == u32_byte(b.mtime, k) by {
            reveal(Ext4Inode::spec_byte);
            reveal(Ext4Inode::image_part0);
            assert(a.spec_byte(16 + k) == b.spec_byte(16 + k));
        }
        lemma_u32_bytes_injective(a.mtime, b.mtime);
        assert forall|k: int| 0 <= k < 4 implies #[trigger] u32_byte(a.dtime, k) == u32_byte(b.dtime, k) by {
            reveal(Ext4Inode::spec_byte);
            reveal(Ext4Inode::image_part0);
            assert(a.spec_byte(20 + k) == b.spec_byte(20 + k));
        }
        lemma_u32_bytes_injective(a.dtime, b.dtime);
        assert forall|k: int| 0 <= k < 2 implies #[trigger] u16_byte(a.gid, k) == u16_byte(b.gid, k) by {
            reveal(Ext4Inode::spec_byte);
            reveal(Ext4Inode::image_part0);
            assert(a.spec_byte(24 + k) == b.spec_byte(24 + k));
        }
        lemma_u16_bytes_injective(a.gid, b.gid);
        assert forall|k: int| 0 <= k < 2 implies #[trigger] u16_byte(a.links_count, k) == u16_byte(b.links_count, k) by {
            reveal(Ext4Inode::spec_byte);
            reveal(Ext4Inode::image_part0);
            assert(a.spec_byte(26 + k) == b.spec_byte(26 + k));
        }
        lemma_u16_bytes_injective(a.links_count, b.links_count);
        assert forall|k: int| 0 <= k < 4 implies #[trigger] u32_byte(a.blocks, k) == u32_byte(b.blocks, k) by {
            reveal(Ext4Inode::spec_byte);
            reveal(Ext4Inode::image_part0);
            assert(a.spec_byte(28 + k) == b.spec_byte(28 + k));
        }
        lemma_u32_bytes_injective(a.blocks, b.blocks);
        assert forall|k: int| 0 <= k < 4 implies #[trigger] u32_byte(a.flags, k) == u32_byte(b.flags, k) by {
            reveal(Ext4Inode::spec_byte);
            reveal(Ext4Inode::image_part0);
            assert(a.spec_byte(32 + k) == b.spec_byte(32 + k));
        }
        lemma_u32_bytes_injective(a.flags, b.flags);
        assert forall|k: int| 0 <= k < 4 implies #[trigger] u32_byte(a.osd1, k) == u32_byte(b.osd1, k) by {
            reveal(Ext4Inode::spec_byte);
            reveal(Ext4Inode::image_part0);
            assert(a.spec_byte(36 + k) == b.spec_byte(36 + k));
        }
        lemma_u32_bytes_injective(a.osd1, b.osd1);
    }

    proof fn lemma_injective_part1(a: Self, b: Self)
        requires
            a.spec_to_bytes() == b.spec_to_bytes(),
        ensures
            a.block == b.block,
            a.generation == b.generation,
            a.file_acl == b.file_acl,
            a.size_hi == b.size_hi,
            a.faddr == b.faddr,
            a.osd2 == b.osd2,
            a.i_extra_isize == b.i_extra_isize,
            a.i_checksum_hi == b.i_checksum_hi,
            a.i_ctime_extra == b.i_ctime_extra,
            a.i_mtime_extra == b.i_mtime_extra,
            a.i_atime_extra == b.i_atime_extra,
            a.i_crtime == b.i_crtime,
    {
        Ext4Inode::lemma_same_image_bytes(a, b);
        assert forall|j: int| 0 <= j < 15 implies a.block[j] == b.block[j] by {
            assert forall|k: int| 0 <= k < 4 implies #[trigger] u32_byte(a.block[j], k) == u32_byte(b.block[j], k) by {
                reveal(Ext4Inode::spec_byte);
                reveal(Ext4Inode::image_part1);
                assert(a.spec_byte(40 + 4 * j + k) == b.spec_byte(40 + 4 * j + k));
            }
            lemma_u32_bytes_injective(a.block[j], b.block[j]);
        }
        assert(a.block =~= b.block);
        assert forall|k: int| 0 <= k < 4 implies #[trigger] u32_byte(a.generation, k) == u32_byte(b.generation, k) by {
            reveal(Ext4Inode::spec_byte);
            reveal(Ext4Inode::image_part1);
            assert(a.spec_byte(100 + k) == b.spec_byte(100 + k));
        }
        lemma_u32_bytes_injective(a.generation, b.generation);
        assert forall|k: int| 0 <= k < 4 implies #[trigger] u32_byte(a.file_acl, k) == u32_byte(b.file_acl, k) by {
            reveal(Ext4Inode::spec_byte);
            reveal(Ext4Inode::image_part1);
            assert(a.spec_byte(104 + k) == b.spec_byte(104 + k));
        }
        lemma_u32_bytes_injective(a.file_acl, b.file_acl);
        assert forall|k: int| 0 <= k < 4 implies #[trigger] u32_byte(a.size_hi, k) == u32_byte(b.size_hi, k) by {
            reveal(Ext4Inode::spec_byte);
            reveal(Ext4Inode::image_part1);
            assert(a.spec_byte(108 + k) == b.spec_byte(108 + k));
        }
        lemma_u32_bytes_injective(a.size_hi, b.size_hi);
        assert forall|k: int| 0 <= k < 4 implies #[trigger] u32_byte(a.faddr, k) == u32_byte(b.faddr, k) by {
            reveal(Ext4Inode::spec_byte);
            reveal(Ext4Inode::image_part1);
            assert(a.spec_byte(112 + k) == b.spec_byte(112 + k));
        }
        lemma_u32_bytes_injective(a.faddr, b.faddr);
        assert(a.osd2.spec_to_bytes() =~= b.osd2.spec_to_bytes()) by {
            assert forall|k: int| 0 <= k < 12 implies a.osd2.spec_byte(k) == b.osd2.spec_byte(k) by {
                reveal(Ext4Inode::spec_byte);
                reveal(Ext4Inode::image_part1);
                assert(a.spec_byte(116 + k) == b.spec_byte(116 + k));
            }
        }
        Linux2::lemma_image_injective(a.osd2, b.osd2);
        assert forall|k: int| 0 <= k < 2 implies #[trigger] u16_byte(a.i_extra_isize, k) == u16_byte(b.i_extra_isize, k) by {
            reveal(Ext4Inode::spec_byte);
            reveal(Ext4Inode::image_part1);
            assert(a.spec_byte(128 + k) == b.spec_byte(128 + k));
        }
        lemma_u16_bytes_injective(a.i_extra_isize, b.i_extra_isize);
        assert forall|k: int| 0 <= k < 2 implies #[trigger] u16_byte(a.i_checksum_hi, k) == u16_byte(b.i_checksum_hi, k) by {
            reveal(Ext4Inode::spec_byte);
            reveal(Ext4Inode::image_part1);
            assert(a.spec_byte(130 + k) == b.spec_byte(130 + k));
        }
        lemma_u16_bytes_injective(a.i_checksum_hi, b.i_checksum_hi);
        assert forall|k: int| 0 <= k < 4 implies #[trigger] u32_byte(a.i_ctime_extra, k) == u32_byte(b.i_ctime_extra, k) by {
            reveal(Ext4Inode::spec_byte);
            reveal(Ext4Inode::image_part1);
            assert(a.spec_byte(132 + k) == b.spec_byte(132 + k));
        }
        lemma_u32_bytes_injective(a.i_ctime_extra, b.i_ctime_extra);
        assert forall|k: int| 0 <= k < 4 implies #[trigger] u32_byte(a.i_mtime_extra, k) == u32_byte(b.i_mtime_extra, k) by {
            reveal(Ext4Inode::spec_byte);
            reveal(Ext4Inode::image_part1);
            assert(a.spec_byte(136 + k) == b.spec_byte(136 + k));
        }
        lemma_u32_bytes_injective(a.i_mtime_extra, b.i_mtime_extra);
        assert forall|k: int| 0 <= k < 4 implies #[trigger] u32_byte(a.i_atime_extra, k) == u32_byte(b.i_atime_extra, k) by {
            reveal(Ext4Inode::spec_byte);
            reveal(Ext4Inode::image_part1);
            assert(a.spec_byte(140 + k) == b.spec_byte(140 + k));
        }
        lemma_u32_bytes_injective(a.i_atime_extra, b.i_atime_extra);
        assert forall|k: int| 0 <= k < 4 implies #[trigger] u32_byte(a.i_crtime, k) == u32_byte(b.i_crtime, k) by {
            reveal(Ext4Inode::spec_byte);
            reveal(Ext4Inode::image_part1);
            assert(a.spec_byte(144 + k) == b.spec_byte(144 + k));
        }
        lemma_u32_bytes_injective(a.i_crtime, b.i_crtime);
    }

    proof fn lemma_injective_part2(a: Self, b: Self)
        requires
            a.spec_to_bytes() == b.spec_to_bytes(),
        ensures
            a.i_crtime_extra == b.i_crtime_extra,
            a.i_version_hi == b.i_version_hi,
    {
        Ext4Inode::lemma_same_image_bytes(a, b);
        assert forall|k: int| 0 <= k < 4 implies #[trigger] u32_byte(a.i_crtime_extra, k) == u32_byte(b.i_crtime_extra, k) by {
            reveal(Ext4Inode::spec_byte);
            reveal(Ext4Inode::image_part2);
            assert(a.spec_byte(148 + k) == b.spec_byte(148 + k));
        }
        lemma_u32_bytes_injective(a.i_crtime_extra, b.i_crtime_extra);
        assert forall|k: int| 0 <= k < 4 implies #[trigger] u32_byte(a.i_version_hi, k) == u32_byte(b.i_version_hi, k) by {
            reveal(Ext4Inode::spec_byte);
            reveal(Ext4Inode::image_part2);
            assert(a.spec_byte(152 + k) == b.spec_byte(152 + k));
        }
        lemma_u32_bytes_injective(a.i_version_hi, b.i_version_hi);
    }

    proof fn lemma_same_image_bytes(a: Self, b: Self)
        requires
            a.spec_to_bytes() == b.spec_to_bytes(),
        ensures
            forall|i: int| 0 <= i < 156 ==> #[trigger] a.spec_byte(i) == b.spec_byte(i),
    {
        assert forall|i: int| 0 <= i < 156 implies #[trigger] a.spec_byte(i) == b.spec_byte(i) by {
            assert(a.spec_to_bytes()[i] == a.spec_byte(i));
            assert(b.spec_to_bytes()[i] == b.spec_byte(i));
        }
    }

    /// Two values with the same image are equal.
    pub proof fn lemma_image_injective(a: Self, b: Self)
        requires
            a.spec_to_bytes() == b.spec_to_bytes(),
        ensures
            a == b,
    {
        Ext4Inode::lemma_injective_part0(a, b);
        Ext4Inode::lemma_injective_part1(a, b);
        Ext4Inode::lemma_injective_part2(a, b);
    }

    #[verifier::rlimit(50)]
    proof fn lemma_field_offsets_part0(self)
        ensures
            self.mode == le_u16(self.spec_to_bytes(), 0),
            self.uid == le_u16(self.spec_to_bytes(), 2),
            self.size == le_u32(self.spec_to_bytes(), 4),
            self.atime == le_u32(self.spec_to_bytes(), 8),
            self.ctime == le_u32(self.spec_to_bytes(), 12),
            self.mtime == le_u32(self.spec_to_bytes(), 16),
            self.dtime == le_u32(self.spec_to_bytes(), 20),
            self.gid == le_u16(self.spec_to_bytes(), 24),
            self.links_count == le_u16(self.spec_to_bytes(), 26),
            self.blocks == le_u32(self.spec_to_bytes(), 28),
            self.flags == le_u32(self.spec_to_bytes(), 32),
            self.osd1 == le_u32(self.spec_to_bytes(), 36),
    {
        let s = self.spec_to_bytes();
        assert forall|k: int| 0 <= k < 2 implies s[k] == #[trigger] u16_byte(self.mode, k) by {
            reveal(Ext4Inode::spec_byte);
            reveal(Ext4Inode::image_part0);
        }
        lemma_le_u16_of_bytes(s, 0, self.mode);
        assert forall|k: int| 0 <= k < 2 implies s[2 + k] == #[trigger] u16_byte(self.uid, k) by {
            reveal(Ext4Inode::spec_byte);
            reveal(Ext4Inode::image_part0);
        }
        lemma_le_u16_of_bytes(s, 2, self.uid);
        assert forall|k: int| 0 <= k < 4 implies s[4 + k] == #[trigger] u32_byte(self.size, k) by {
            reveal(Ext4Inode::spec_byte);
            reveal(Ext4Inode::image_part0);
        }
        lemma_le_u32_of_bytes(s, 4, self.size);
        assert forall|k: int| 0 <= k < 4 implies s[8 + k] == #[trigger] u32_byte(self.atime, k) by {
            reveal(Ext4Inode::spec_byte);
            reveal(Ext4Inode::image_part0);
        }
        lemma_le_u32_of_bytes(s, 8, self.atime);
        assert forall|k: int| 0 <= k < 4 implies s[12 + k] == #[trigger] u32_byte(self.ctime, k) by {
            reveal(Ext4Inode::spec_byte);
            reveal(Ext4Inode::image_part0);
        }
        lemma_le_u32_of_bytes(s, 12, self.ctime);
        assert forall|k: int| 0 <= k < 4 implies s[16 + k] == #[trigger] u32_byte(self.mtime, k) by {
            reveal(Ext4Inode::spec_byte);
            reveal(Ext4Inode::image_part0);
        }
        lemma_le_u32_of_bytes(s, 16, self.mtime);
        assert forall|k: int| 0 <= k < 4 implies s[20 + k] == #[trigger] u32_byte(self.dtime, k) by {
            reveal(Ext4Inode::spec_byte);
            reveal(Ext4Inode::image_part0);
        }
        lemma_le_u32_of_bytes(s, 20, self.dtime);
        assert forall|k: int| 0 <= k < 2 implies s[24 + k] == #[trigger] u16_byte(self.gid, k) by {
            reveal(Ext4Inode::spec_byte);
            reveal(Ext4Inode::image_part0);
        }
        lemma_le_u16_of_bytes(s, 24, self.gid);
        assert forall|k: int| 0 <= k < 2 implies s[26 + k] == #[trigger] u16_byte(self.links_count, k) by {
            reveal(Ext4Inode::spec_byte);
            reveal(Ext4Inode::image_part0);
        }
        lemma_le_u16_of_bytes(s, 26, self.links_count);
        assert forall|k: int| 0 <= k < 4 implies s[28 + k] == #[trigger] u32_byte(self.blocks, k) by {
            reveal(Ext4Inode::spec_byte);
            reveal(Ext4Inode::image_part0);
        }
        lemma_le_u32_of_bytes(s, 28, self.blocks);
        assert forall|k: int| 0 <= k < 4 implies s[32 + k] == #[trigger] u32_byte(self.flags, k) by {
            reveal(Ext4Inode::spec_byte);
            reveal(Ext4Inode::image_part0);
        }
        lemma_le_u32_of_bytes(s, 32, self.flags);
        assert forall|k: int| 0 <= k < 4 implies s[36 + k] == #[trigger] u32_byte(self.osd1, k) by {
            reveal(Ext4Inode::spec_byte);
            reveal(Ext4Inode::image_part0);
        }
        lemma_le_u32_of_bytes(s, 36, self.osd1);
    }

    #[verifier::rlimit(50)]
    proof fn lemma_field_offsets_part1(self)
        ensures
            forall|k: int| 0 <= k < 15 ==> #[trigger] self.block[k] == le_u32(self.spec_to_bytes(), 40 + 4 * k),
            self.generation == le_u32(self.spec_to_bytes(), 100),
            self.file_acl == le_u32(self.spec_to_bytes(), 104),
            self.size_hi == le_u32(self.spec_to_bytes(), 108),
            self.faddr == le_u32(self.spec_to_bytes(), 112),
            self.osd2.spec_to_bytes() == self.spec_to_bytes().subrange(116, 128),
            self.i_extra_isize == le_u16(self.spec_to_bytes(), 128),
            self.i_checksum_hi == le_u16(self.spec_to_bytes(), 130),
            self.i_ctime_extra == le_u32(self.spec_to_bytes(), 132),
            self.i_mtime_extra == le_u32(self.spec_to_bytes(), 136),
            self.i_atime_extra == le_u32(self.spec_to_bytes(), 140),
            self.i_crtime == le_u32(self.spec_to_bytes(), 144),
    {
        let s = self.spec_to_bytes();
        assert forall|j: int| 0 <= j < 15 implies #[trigger] self.block[j] == le_u32(s, 40 + 4 * j) by {
            assert forall|k: int| 0 <= k < 4 implies s[40 + 4 * j + k] == #[trigger] u32_byte(self.block[j], k) by {
                reveal(Ext4Inode::spec_byte);
                reveal(Ext4Inode::image_part1);
            }
            lemma_le_u32_of_bytes(s, 40 + 4 * j, self.block[j]);
        }
        assert forall|k: int| 0 <= k < 4 implies s[100 + k] == #[trigger] u32_byte(self.generation, k) by {
            reveal(Ext4Inode::spec_byte);
            reveal(Ext4Inode::image_part1);
        }
        lemma_le_u32_of_bytes(s, 100, self.generation);
        assert forall|k: int| 0 <= k < 4 implies s[104 + k] == #[trigger] u32_byte(self.file_acl, k) by {
            reveal(Ext4Inode::spec_byte);
            reveal(Ext4Inode::image_part1);
        }
        lemma_le_u32_of_bytes(s, 104, self.file_acl);
        assert forall|k: int| 0 <= k < 4 implies s[108 + k] == #[trigger] u32_byte(self.size_hi, k) by {
            reveal(Ext4Inode::spec_byte);
            reveal(Ext4Inode::image_part1);
        }
        lemma_le_u32_of_bytes(s, 108, self.size_hi);
        assert forall|k: int| 0 <= k < 4 implies s[112 + k] == #[trigger] u32_byte(self.faddr, k) by {
            reveal(Ext4Inode::spec_byte);
            reveal(Ext4Inode::image_part1);
        }
        lemma_le_u32_of_bytes(s, 112, self.faddr);
        assert(self.osd2.spec_to_bytes() =~= s.subrange(116, 128)) by {
            assert forall|k: int| 0 <= k < 12 implies self.osd2.spec_byte(k) == s[116 + k] by {
                reveal(Ext4Inode::spec_byte);
                reveal(Ext4Inode::image_part1);
            }
        }
        assert forall|k: int| 0 <= k < 2 implies s[128 + k] == #[trigger] u16_byte(self.i_extra_isize, k) by {
            reveal(Ext4Inode::spec_byte);
            reveal(Ext4Inode::image_part1);
        }
        lemma_le_u16_of_bytes(s, 128, self.i_extra_isize);
        assert forall|k: int| 0 <= k < 2 implies s[130 + k] == #[trigger] u16_byte(self.i_checksum_hi, k) by {
            reveal(Ext4Inode::spec_byte);
            reveal(Ext4Inode::image_part1);
        }
        lemma_le_u16_of_bytes(s, 130, self.i_checksum_hi);
        assert forall|k: int| 0 <= k < 4 implies s[132 + k] == #[trigger] u32_byte(self.i_ctime_extra, k) by {
            reveal(Ext4Inode::spec_byte);
            reveal(Ext4Inode::image_part1);
        }
        lemma_le_u32_of_bytes(s, 132, self.i_ctime_extra);
        assert forall|k: int| 0 <= k < 4 implies s[136 + k] == #[trigger] u32_byte(self.i_mtime_extra, k) by {
            reveal(Ext4Inode::spec_byte);
            reveal(Ext4Inode::image_part1);
        }
        lemma_le_u32_of_bytes(s, 136, self.i_mtime_extra);
        assert forall|k: int| 0 <= k < 4 implies s[140 + k] == #[trigger] u32_byte(self.i_atime_extra, k) by {
            reveal(Ext4Inode::spec_byte);
            reveal(Ext4Inode::image_part1);
        }
        lemma_le_u32_of_bytes(s, 140, self.i_atime_extra);
        assert forall|k: int| 0 <= k < 4 implies s[144 + k] == #[trigger] u32_byte(self.i_crtime, k) by {
            reveal(Ext4Inode::spec_byte);
            reveal(Ext4Inode::image_part1);
        }
        lemma_le_u32_of_bytes(s, 144, self.i_crtime);
    }

    #[verifier::rlimit(50)]
    proof fn lemma_field_offsets_part2(self)
        ensures
            self.i_crtime_extra == le_u32(self.spec_to_bytes(), 148),
            self.i_version_hi == le_u32(self.spec_to_bytes(), 152),
    {
        let s = self.spec_to_bytes();
        assert forall|k: int| 0 <= k < 4 implies s[148 + k] == #[trigger] u32_byte(self.i_crtime_extra, k) by {
            reveal(Ext4Inode::spec_byte);
            reveal(Ext4Inode::image_part2);
        }
        lemma_le_u32_of_bytes(s, 148, self.i_crtime_extra);
        assert forall|k: int| 0 <= k < 4 implies s[152 + k] == #[trigger] u32_byte(self.i_version_hi, k) by {
            reveal(Ext4Inode::spec_byte);
            reveal(Ext4Inode::image_part2);
        }
        lemma_le_u32_of_bytes(s, 152, self.i_version_hi);
    }

    /// Where each field sits in the image: at its offset, little-endian.
    pub proof fn lemma_field_offsets(self)
        ensures
            self.mode == le_u16(self.spec_to_bytes(), 0),
            self.uid == le_u16(self.spec_to_bytes(), 2),
            self.size == le_u32(self.spec_to_bytes(), 4),
            self.atime == le_u32(self.spec_to_bytes(), 8),
            self.ctime == le_u32(self.spec_to_bytes(), 12),
            self.mtime == le_u32(self.spec_to_bytes(), 16),
            self.dtime == le_u32(self.spec_to_bytes(), 20),
            self.gid == le_u16(self.spec_to_bytes(), 24),
            self.links_count == le_u16(self.spec_to_bytes(), 26),
            self.blocks == le_u32(self.spec_to_bytes(), 28),
            self.flags == le_u32(self.spec_to_bytes(), 32),
            self.osd1 == le_u32(self.spec_to_bytes(), 36),
            forall|k: int| 0 <= k < 15 ==> #[trigger] self.block[k] == le_u32(self.spec_to_bytes(), 40 + 4 * k),
            self.generation == le_u32(self.spec_to_bytes(), 100),
            self.file_acl == le_u32(self.spec_to_bytes(), 104),
            self.size_hi == le_u32(self.spec_to_bytes(), 108),
            self.faddr == le_u32(self.spec_to_bytes(), 112),
            self.osd2.spec_to_bytes() == self.spec_to_bytes().subrange(116, 128),
            self.i_extra_isize == le_u16(self.spec_to_bytes(), 128),
            self.i_checksum_hi == le_u16(self.spec_to_bytes(), 130),
            self.i_ctime_extra == le_u32(self.spec_to_bytes(), 132),
            self.i_mtime_extra == le_u32(self.spec_to_bytes(), 136),
            self.i_atime_extra == le_u32(self.spec_to_bytes(), 140),
            self.i_crtime == le_u32(self.spec_to_bytes(), 144),
            self.i_crtime_extra == le_u32(self.spec_to_bytes(), 148),
            self.i_version_hi == le_u32(self.spec_to_bytes(), 152),
    {
        self.lemma_field_offsets_part0();
        self.lemma_field_offsets_part1();
        self.lemma_field_offsets_part2();
    }

    /// `self` with both halves of the stored checksum set to 0.
    pub open spec fn with_checksum_zeroed(self) -> Self {
        Ext4Inode { osd2: Linux2 { l_i_checksum_lo: 0, ..self.osd2 }, i_checksum_hi: 0, ..self }
    }

    /// `self` with `checksum` stored as for inodes of `inode_size` bytes: the
    /// low 16 bits always, the high 16 bits only when `inode_size > 128`.
    pub open spec fn with_checksum_value(self, checksum: u32, inode_size: u16) -> Self {
        Ext4Inode {
            osd2: Linux2 { l_i_checksum_lo: (checksum % 0x10000) as u16, ..self.osd2 },
            i_checksum_hi: if inode_size > 128 {
                (checksum / 0x10000) as u16
            } else {
                self.i_checksum_hi
            },
            ..self
        }
    }

    /// The stored checksum, read as for inodes of `inode_size` bytes: the
    /// high half counts only when `inode_size > 128`.
    pub open spec fn spec_stored_checksum(self, inode_size: u16) -> int {
        if inode_size > 128 {
            self.osd2.l_i_checksum_lo + self.i_checksum_hi * 0x10000
        } else {
            self.osd2.l_i_checksum_lo as int
        }
    }

    /// The bytes of the inode that the checksum covers: the image with the
    /// checksum zeroed, followed by zero bytes (the part of an on-disk inode
    /// past the fields this struct holds), cut to `inode_size` bytes.
    pub open spec fn spec_checksum_image(self, inode_size: u16) -> Seq<u8> {
        (self.with_checksum_zeroed().spec_to_bytes() + Seq::new(
            (INODE_CHECKSUM_SPAN - EXT4_INODE_IMAGE_SIZE) as nat,
            |i: int| 0u8,
        )).take(inode_size as int)
    }

    /// The CRC-32C register over what the inode checksum covers: the volume
    /// uuid, the inode number and the generation (4 bytes each,
    /// little-endian), then `spec_checksum_image`.
    pub open spec fn spec_inode_crc(self, super_block: Ext4Superblock, inode_id: u32) -> u32 {
        crc32c(
            crc32c(
                crc32c(crc32c(EXT4_CRC32_INIT, super_block.spec_uuid()), u32_le_seq(inode_id)),
                u32_le_seq(self.generation),
            ),
            self.spec_checksum_image(super_block.spec_inode_size()),
        )
    }

    /// The inode with its checksum set for inode number `inode_id`.
    pub open spec fn spec_with_checksum_set(self, super_block: Ext4Superblock, inode_id: u32) -> Self {
        self.with_checksum_zeroed().with_checksum_value(
            self.spec_inode_crc(super_block, inode_id),
            super_block.spec_inode_size(),
        )
    }

    /// A stored checksum value reads back: whole when the inode is larger
    /// than 128 bytes, its low 16 bits otherwise.
    pub proof fn lemma_checksum_value_reads_back(self, checksum: u32, inode_size: u16)
        ensures
            self.with_checksum_value(checksum, inode_size).spec_stored_checksum(inode_size) == if inode_size
                > 128 {
                checksum as int
            } else {
                checksum as int % 0x10000
            },
    {
    }

    /// The checksum does not depend on the checksum stored in the inode.
    pub proof fn lemma_crc_ignores_stored(
        self,
        checksum: u32,
        super_block: Ext4Superblock,
        inode_id: u32,
    )
        ensures
            self.with_checksum_value(checksum, super_block.spec_inode_size()).spec_inode_crc(
                super_block,
                inode_id,
            ) == self.spec_inode_crc(super_block, inode_id),
            self.with_checksum_zeroed().spec_inode_crc(super_block, inode_id) == self.spec_inode_crc(
                super_block,
                inode_id,
            ),
    {
        assert(self.with_checksum_value(checksum, super_block.spec_inode_size()).with_checksum_zeroed()
            == self.with_checksum_zeroed());
        assert(self.with_checksum_zeroed().with_checksum_zeroed() == self.with_checksum_zeroed());
    }

    /// What the inode checksum is, for every inode whatever its generation:
    /// the CRC-32C register, seeded with `EXT4_CRC32_INIT`, run once over
    /// the volume uuid, the inode number and the generation (4 little-endian
    /// bytes each), then the `inode_size` covered bytes: the image with both
    /// checksum halves zeroed, continued with zero bytes.
    pub proof fn lemma_inode_crc_input(self, super_block: Ext4Superblock, inode_id: u32)
        requires
            super_block.spec_inode_size() <= INODE_CHECKSUM_SPAN,
        ensures
            ({
                let size = super_block.spec_inode_size() as int;
                let covered = self.spec_checksum_image(super_block.spec_inode_size());
                &&& self.spec_inode_crc(super_block, inode_id) == crc32c(
                    EXT4_CRC32_INIT,
                    super_block.spec_uuid() + u32_le_seq(inode_id) + u32_le_seq(self.generation)
                        + covered,
                )
                &&& covered.len() == size
                &&& forall|i: int|
                    0 <= i < size ==> #[trigger] covered[i] == if i < EXT4_INODE_IMAGE_SIZE {
                        self.with_checksum_zeroed().spec_to_bytes()[i]
                    } else {
                        0u8
                    }
            }),
    {
        let u = super_block.spec_uuid();
        let id = u32_le_seq(inode_id);
        let g = u32_le_seq(self.generation);
        let covered = self.spec_checksum_image(super_block.spec_inode_size());
        lemma_crc32c_append(EXT4_CRC32_INIT, u, id);
        lemma_crc32c_append(EXT4_CRC32_INIT, u + id, g);
        lemma_crc32c_append(EXT4_CRC32_INIT, u + id + g, covered);
    }

    /// Where an inode is, given the descriptor of its group: slot
    /// `(inode_id - 1) % inodes_per_group` of the group's inode table, so
    /// always within that table; `PositionOverflow` only when that position
    /// does not fit in `usize`.
    pub proof fn lemma_disk_pos_in_table(
        block_group: Ext4BlockGroup,
        super_block: Ext4Superblock,
        inode_id: u32,
    )
        requires
            inode_id >= 1,
            super_block.spec_inodes_per_group() > 0,
        ensures
            ({
                let start = block_group.spec_inode_table_block(super_block) * BLOCK_SIZE;
                let ipg = super_block.spec_inodes_per_group() as int;
                let size = super_block.spec_inode_size() as int;
                let pos = start + ((inode_id - 1) % ipg) * size;
                match Self::spec_disk_pos_in_group(block_group, super_block, inode_id) {
                    Ok(p) => {
                        &&& p == pos
                        &&& start <= p
                        &&& p + size <= start + ipg * size
                    },
                    Err(e) => e == Ext4Error::PositionOverflow && pos > usize::MAX,
                }
            }),
    {
        let ipg = super_block.spec_inodes_per_group() as int;
        let size = super_block.spec_inode_size() as int;
        let idx = (inode_id - 1) % ipg;
        Self::lemma_inode_group_index(super_block, inode_id);
        assert(0 <= idx * size && idx * size + size <= ipg * size) by (nonlinear_arith)
            requires
                0 <= idx < ipg,
                0 <= size,
        ;
    }

    /// Two inodes that differ at most in their stored checksums have the
    /// same checksum.
    pub proof fn lemma_crc_equal_except_stored(
        a: Self,
        b: Self,
        super_block: Ext4Superblock,
        inode_id: u32,
    )
        requires
            a.with_checksum_zeroed() == b.with_checksum_zeroed(),
        ensures
            a.spec_inode_crc(super_block, inode_id) == b.spec_inode_crc(super_block, inode_id),
    {
        assert(a.generation == a.with_checksum_zeroed().generation);
        assert(b.generation == b.with_checksum_zeroed().generation);
    }

    /// Setting an inode's checksum twice gives what setting it once gives.
    pub proof fn lemma_set_checksum_idempotent(self, super_block: Ext4Superblock, inode_id: u32)
        ensures
            self.spec_with_checksum_set(super_block, inode_id).spec_with_checksum_set(
                super_block,
                inode_id,
            ) == self.spec_with_checksum_set(super_block, inode_id),
    {
        self.lemma_set_checksum_verifies(super_block, inode_id);
    }

    /// Once its checksum is set, an inode verifies: the stored checksum is
    /// the checksum computed from it (its low 16 bits for 128-byte or
    /// smaller inodes), and setting it again changes nothing.
    pub proof fn lemma_set_checksum_verifies(self, super_block: Ext4Superblock, inode_id: u32)
        ensures
            ({
                let set = self.spec_with_checksum_set(super_block, inode_id);
                let size = super_block.spec_inode_size();
                let c = set.spec_inode_crc(super_block, inode_id);
                &&& c == self.spec_inode_crc(super_block, inode_id)
                &&& set.spec_stored_checksum(size) == if size > 128 {
                    c as int
                } else {
                    c as int % 0x10000
                }
                &&& set.spec_with_checksum_set(super_block, inode_id) == set
            }),
    {
        let size = super_block.spec_inode_size();
        let c = self.spec_inode_crc(super_block, inode_id);
        let z = self.with_checksum_zeroed();
        z.lemma_crc_ignores_stored(c, super_block, inode_id);
        self.lemma_crc_ignores_stored(c, super_block, inode_id);
        z.lemma_checksum_value_reads_back(c, size);
        let set = z.with_checksum_value(c, size);
        assert(set.with_checksum_zeroed() == z);
    }

    /// Reads the stored checksum: the low half, and the high half when the
    /// inode is larger than 128 bytes.
    pub fn get_checksum(&self, super_block: &Ext4Superblock) -> (r: u32)
        ensures
            r == self.spec_stored_checksum(super_block.spec_inode_size()),
    {
        let inode_size = super_block.inode_size();
        let mut v: u32 = self.osd2.l_i_checksum_lo as u32;
        if inode_size > 128 {
            let lo: u16 = self.osd2.l_i_checksum_lo;
            let hi: u16 = self.i_checksum_hi;
            v |= (self.i_checksum_hi as u32) << 16u32;
            assert(v == (lo as u32) + (hi as u32) * 0x10000) by (bit_vector)
                requires
                    v == (lo as u32) | ((hi as u32) << 16u32),
            ;
        }
        v
    }

    /// Stores `checksum`: its low 16 bits, and its high 16 bits when the
    /// inode is larger than 128 bytes.
    pub fn set_inode_checksum_value(
        &mut self,
        super_block: &Ext4Superblock,
        inode_id: u32,
        checksum: u32,
    )
        ensures
            *final(self) == old(self).with_checksum_value(checksum, super_block.spec_inode_size()),
    {
        let inode_size = super_block.inode_size();
        let lo: u16 = ((checksum << 16u32) >> 16u32) as u16;
        assert(lo == checksum % 0x10000) by (bit_vector)
            requires
                lo == ((checksum << 16u32) >> 16u32) as u16,
        ;
        self.osd2.l_i_checksum_lo = lo;
        if inode_size > 128 {
            let hi: u16 = (checksum >> 16u32) as u16;
            assert(hi == checksum / 0x10000) by (bit_vector)
                requires
                    hi == (checksum >> 16u32) as u16,
            ;
            self.i_checksum_hi = hi;
        }
    }

    /// Computes the checksum of the inode as inode number `inode_id`, and
    /// leaves it stored in the inode.
    ///
    /// The stored checksum is zeroed first, so it does not count; the
    /// result is the CRC, or its low 16 bits when the inode is 128 bytes.
    pub fn get_inode_checksum(&mut self, inode_id: u32, super_block: &Ext4Superblock) -> (r: u32)
        requires
            super_block.spec_inode_size() <= INODE_CHECKSUM_SPAN,
        ensures
            *final(self) == old(self).spec_with_checksum_set(*super_block, inode_id),
            r == if super_block.spec_inode_size() == 128 {
                old(self).spec_inode_crc(*super_block, inode_id) as int % 0x10000
            } else {
                old(self).spec_inode_crc(*super_block, inode_id) as int
            },
    {
        let inode_size = super_block.inode_size();
        let ino_index = inode_id;
        let ino_gen = self.generation;

        // The checksum is computed with the stored checksum set to 0.
        self.osd2.l_i_checksum_lo = 0;
        self.i_checksum_hi = 0;
        assert(*self == old(self).with_checksum_zeroed());

        let uuid = super_block.uuid();
        let mut checksum = ext4_crc32c(EXT4_CRC32_INIT, uuid.as_slice(), 16);
        assert(uuid@.take(16) =~= super_block.spec_uuid());

        let mut index_bytes: Vec<u8> = Vec::new();
        push_u32_le(&mut index_bytes, ino_index);
        checksum = ext4_crc32c(checksum, index_bytes.as_slice(), 4);
        assert(index_bytes@.take(4) =~= u32_le_seq(ino_index));

        let mut gen_bytes: Vec<u8> = Vec::new();
        push_u32_le(&mut gen_bytes, ino_gen);
        checksum = ext4_crc32c(checksum, gen_bytes.as_slice(), 4);
        assert(gen_bytes@.take(4) =~= u32_le_seq(ino_gen));

        let mut self_bytes = self.to_bytes();
        let ghost image = self_bytes@;
        let mut k: usize = EXT4_INODE_IMAGE_SIZE;
        while k < INODE_CHECKSUM_SPAN
            invariant
                EXT4_INODE_IMAGE_SIZE <= k <= INODE_CHECKSUM_SPAN,
                image.len() == EXT4_INODE_IMAGE_SIZE,
                self_bytes@ =~= image + Seq::new((k - EXT4_INODE_IMAGE_SIZE) as nat, |i: int| 0u8),
            decreases INODE_CHECKSUM_SPAN - k,
        {
            self_bytes.push(0u8);
            k = k + 1;
        }
        checksum = ext4_crc32c(checksum, self_bytes.as_slice(), inode_size as u32);

        self.set_inode_checksum_value(super_block, inode_id, checksum);

        if inode_size == 128 {
            let c = checksum;
            checksum &= 0xFFFF;
            assert(checksum == c % 0x10000) by (bit_vector)
                requires
                    checksum == c & 0xFFFF,
            ;
        }
        checksum
    }

    /// Sets the checksum of the inode as inode number `inode_id`.
    pub fn set_inode_checksum(&mut self, super_block: &Ext4Superblock, inode_id: u32)
        requires
            super_block.spec_inode_size() <= INODE_CHECKSUM_SPAN,
        ensures
            *final(self) == old(self).spec_with_checksum_set(*super_block, inode_id),
    {
        let inode_size = super_block.inode_size();
        let checksum = self.get_inode_checksum(inode_id, super_block);
        let ghost c = old(self).spec_inode_crc(*super_block, inode_id);

        let lo: u16 = ((checksum << 16u32) >> 16u32) as u16;
        assert(lo == checksum % 0x10000) by (bit_vector)
            requires
                lo == ((checksum << 16u32) >> 16u32) as u16,
        ;
        self.osd2.l_i_checksum_lo = lo;
        if inode_size > 128 {
            let hi: u16 = (checksum >> 16u32) as u16;
            assert(hi == checksum / 0x10000) by (bit_vector)
                requires
                    hi == (checksum >> 16u32) as u16,
            ;
            self.i_checksum_hi = hi;
        }
    }

    /// The position of the slot `index` of an inode table that starts at
    /// block `table_block`, with slots of `inode_size` bytes.
    pub open spec fn spec_inode_table_pos(table_block: nat, index: int, inode_size: u16) -> int {
        table_block * BLOCK_SIZE + index * inode_size
    }

    /// The block group of inode number `inode_id` (inode numbers start at 1).
    pub open spec fn spec_inode_group(super_block: Ext4Superblock, inode_id: u32) -> int {
        (inode_id - 1) / super_block.spec_inodes_per_group() as int
    }

    /// The index of inode number `inode_id` in its group's inode table.
    pub open spec fn spec_inode_index(super_block: Ext4Superblock, inode_id: u32) -> int {
        (inode_id - 1) % super_block.spec_inodes_per_group() as int
    }

    /// An inode number is its group and its index within the group.
    pub proof fn lemma_inode_group_index(super_block: Ext4Superblock, inode_id: u32)
        requires
            inode_id >= 1,
            super_block.spec_inodes_per_group() > 0,
        ensures
            inode_id - 1 == Self::spec_inode_group(super_block, inode_id)
                * super_block.spec_inodes_per_group() + Self::spec_inode_index(super_block, inode_id),
            0 <= Self::spec_inode_index(super_block, inode_id) < super_block.spec_inodes_per_group(),
            0 <= Self::spec_inode_group(super_block, inode_id),
    {
        let n = inode_id - 1;
        let p = super_block.spec_inodes_per_group() as int;
        assert(n == (n / p) * p + n % p && 0 <= n % p < p && 0 <= n / p) by (nonlinear_arith)
            requires
                0 <= n,
                p > 0,
        ;
    }

    /// Distinct slots of an inode table do not overlap.
    pub proof fn lemma_inode_slots_disjoint(table_block: nat, i: int, j: int, inode_size: u16)
        requires
            0 <= i < j,
        ensures
            Self::spec_inode_table_pos(table_block, i, inode_size) + inode_size
                <= Self::spec_inode_table_pos(table_block, j, inode_size),
    {
        assert(i * inode_size + inode_size <= j * inode_size) by (nonlinear_arith)
            requires
                i < j,
                0 <= inode_size,
        ;
    }

    /// Returns the byte position of slot `index` of an inode table that
    /// starts at block `table_block`, or `PositionOverflow` when it does not
    /// fit in `usize`.
    pub fn inode_table_pos(table_block: u64, index: u32, inode_size: u16) -> (r: Result<usize, Ext4Error>)
        ensures
            r is Ok <==> Self::spec_inode_table_pos(table_block as nat, index as int, inode_size)
                <= usize::MAX,
            r matches Ok(p) ==> p == Self::spec_inode_table_pos(
                table_block as nat,
                index as int,
                inode_size,
            ),
            r matches Err(e) ==> e == Ext4Error::PositionOverflow,
    {
        assert((index as int) * (inode_size as int) <= 0xffff_ffff * 0xffff) by (nonlinear_arith)
            requires
                index <= 0xffff_ffff,
                inode_size <= 0xffff,
        ;
        let slot: u64 = index as u64 * inode_size as u64;
        if table_block > (u64::MAX - slot) / (BLOCK_SIZE as u64) {
            assert(table_block * 4096 + slot > u64::MAX) by (nonlinear_arith)
                requires
                    table_block > (u64::MAX - slot) / 4096,
                    slot <= u64::MAX,
            ;
            return Err(Ext4Error::PositionOverflow);
        }
        assert(table_block * 4096 + slot <= u64::MAX) by (nonlinear_arith)
            requires
                table_block <= (u64::MAX - slot) / 4096,
                slot <= u64::MAX,
        ;
        let pos: u64 = table_block * (BLOCK_SIZE as u64) + slot;
        if pos > usize::MAX as u64 {
            Err(Ext4Error::PositionOverflow)
        } else {
            Ok(pos as usize)
        }
    }

    /// The position of inode number `inode_id` given the descriptor
    /// `block_group` of its group, or `PositionOverflow` when it does not fit
    /// in `usize`.
    pub open spec fn spec_disk_pos_in_group(
        block_group: Ext4BlockGroup,
        super_block: Ext4Superblock,
        inode_id: u32,
    ) -> Result<usize, Ext4Error> {
        let pos = Self::spec_inode_table_pos(
            block_group.spec_inode_table_block(super_block),
            Self::spec_inode_index(super_block, inode_id),
            super_block.spec_inode_size(),
        );
        if pos <= usize::MAX {
            Ok(pos as usize)
        } else {
            Err(Ext4Error::PositionOverflow)
        }
    }

    /// The position of inode number `inode_id` when the device returns
    /// `block` for the block that holds the descriptor of the inode's group:
    /// the descriptor decoded from `block` at its offset, then the inode's
    /// slot in that group's inode table.
    pub open spec fn spec_disk_pos_from_block(
        block: Seq<u8>,
        super_block: Ext4Superblock,
        inode_id: u32,
    ) -> Result<usize, Ext4Error> {
        match Ext4BlockGroup::spec_decode_at(
            block,
            Ext4BlockGroup::spec_descriptor_offset(
                super_block,
                Self::spec_inode_group(super_block, inode_id),
            ),
        ) {
            Ok(block_group) => Self::spec_disk_pos_in_group(block_group, super_block, inode_id),
            Err(e) => Err(e),
        }
    }

    /// Returns the byte position on the device of inode number `inode_id`,
    /// given the descriptor `block_group` of its group.
    pub fn inode_disk_pos_in_group(
        block_group: &Ext4BlockGroup,
        super_block: &Ext4Superblock,
        inode_id: u32,
    ) -> (r: Result<usize, Ext4Error>)
        requires
            inode_id >= 1,
            super_block.spec_inodes_per_group() > 0,
        ensures
            r == Self::spec_disk_pos_in_group(*block_group, *super_block, inode_id),
    {
        let inodes_per_group = super_block.inodes_per_group();
        let inode_size = super_block.inode_size();
        let index = (inode_id - 1) % inodes_per_group;
        let table_block = block_group.inode_table_first_block(super_block);
        Self::inode_table_pos(table_block, index, inode_size)
    }

    /// The byte position on the device of the block that holds the
    /// descriptor of the group of inode number `inode_id`.
    pub open spec fn spec_group_descriptor_block_pos(super_block: Ext4Superblock, inode_id: u32) -> usize {
        Ext4BlockGroup::spec_descriptor_block_pos(
            super_block,
            Self::spec_inode_group(super_block, inode_id),
        ) as usize
    }

    /// What writing the inode image `image` to its position gives, when the
    /// device answers `block` for the block that holds the descriptor of the
    /// inode's group: `Ok` with the write requested at the inode's position,
    /// or the error of finding that position (and no write).
    pub open spec fn spec_sync_outcome<D: BlockDevice + ?Sized>(
        block_device: &D,
        block: Seq<u8>,
        super_block: Ext4Superblock,
        inode_id: u32,
        image: Seq<u8>,
        r: Result<(), Ext4Error>,
    ) -> bool {
        match Self::spec_disk_pos_from_block(block, super_block, inode_id) {
            Ok(p) => r == Ok::<(), Ext4Error>(()) && block_device.spec_write_requested(p, image),
            Err(e) => r == Err::<(), Ext4Error>(e),
        }
    }

    /// Returns the byte position on the device of inode number `inode_id`:
    /// reads the block that holds the descriptor of its group, decodes the
    /// descriptor, then finds the inode's slot in the group's inode table.
    /// The result is what that gives for the bytes the device answered.
    pub fn get_inode_disk_pos<D: BlockDevice + ?Sized>(
        &self,
        super_block: &Ext4Superblock,
        block_device: &D,
        inode_id: u32,
    ) -> (r: Result<usize, Ext4Error>)
        requires
            inode_id >= 1,
            super_block.spec_inodes_per_group() > 0,
            Ext4BlockGroup::spec_descriptor_location_ok(
                *super_block,
                Self::spec_inode_group(*super_block, inode_id),
            ),
        ensures
            exists|block: Seq<u8>|
                {
                    &&& #[trigger] block_device.spec_read(
                        Self::spec_group_descriptor_block_pos(*super_block, inode_id),
                        block,
                    )
                    &&& r == Self::spec_disk_pos_from_block(block, *super_block, inode_id)
                },
            r matches Err(e) ==> e == Ext4Error::BufferTooShort || e == Ext4Error::PositionOverflow,
    {
        let inodes_per_group = super_block.inodes_per_group();
        let group = (inode_id - 1) / inodes_per_group;
        let loaded = Ext4BlockGroup::load(block_device, super_block, group as usize);
        let ghost offset = Ext4BlockGroup::spec_descriptor_offset(*super_block, group as int);
        let ghost pos = Ext4BlockGroup::spec_descriptor_block_pos(*super_block, group as int) as usize;
        let ghost block = choose|block: Seq<u8>|
            #[trigger] block_device.spec_read(pos, block) && loaded
                == Ext4BlockGroup::spec_decode_at(block, offset);
        let r = match loaded {
            Ok(block_group) => Self::inode_disk_pos_in_group(&block_group, super_block, inode_id),
            Err(e) => Err(e),
        };
        assert(group as int == Self::spec_inode_group(*super_block, inode_id));
        assert(pos == Self::spec_group_descriptor_block_pos(*super_block, inode_id));
        assert(block_device.spec_read(
            Self::spec_group_descriptor_block_pos(*super_block, inode_id),
            block,
        ));
        assert(r == Self::spec_disk_pos_from_block(block, *super_block, inode_id));
        r
    }

    /// Writes the inode's image at its position on the device. The result
    /// is `Ok` exactly when the position was found, as `get_inode_disk_pos`
    /// finds it; then the image is written there.
    pub fn sync_inode_to_disk<D: BlockDevice + ?Sized>(
        &self,
        block_device: &D,
        super_block: &Ext4Superblock,
        inode_id: u32,
    ) -> (r: Result<(), Ext4Error>)
        requires
            inode_id >= 1,
            super_block.spec_inodes_per_group() > 0,
            Ext4BlockGroup::spec_descriptor_location_ok(
                *super_block,
                Self::spec_inode_group(*super_block, inode_id),
            ),
        ensures
            exists|block: Seq<u8>|
                {
                    &&& #[trigger] block_device.spec_read(
                        Self::spec_group_descriptor_block_pos(*super_block, inode_id),
                        block,
                    )
                    &&& Self::spec_sync_outcome(
                        block_device,
                        block,
                        *super_block,
                        inode_id,
                        self.spec_to_bytes(),
                        r,
                    )
                },
            r matches Err(e) ==> e == Ext4Error::BufferTooShort || e == Ext4Error::PositionOverflow,
    {
        let pos = self.get_inode_disk_pos(super_block, block_device, inode_id);
        let ghost block = choose|block: Seq<u8>|
            #[trigger] block_device.spec_read(
                Self::spec_group_descriptor_block_pos(*super_block, inode_id),
                block,
            ) && pos == Self::spec_disk_pos_from_block(block, *super_block, inode_id);
        match pos {
            Ok(disk_pos) => {
                let data = self.to_bytes();
                block_device.write_offset(disk_pos, data.as_slice());
                Ok(())
            },
            Err(e) => Err(e),
        }
    }

    /// Sets the inode's checksum, then writes it to the device.
    pub fn sync_inode_to_disk_with_csum<D: BlockDevice + ?Sized>(
        &mut self,
        block_device: &D,
        super_block: &Ext4Superblock,
        inode_id: u32,
    ) -> (r: Result<(), Ext4Error>)
        requires
            super_block.spec_inode_size() <= INODE_CHECKSUM_SPAN,
            inode_id >= 1,
            super_block.spec_inodes_per_group() > 0,
            Ext4BlockGroup::spec_descriptor_location_ok(
                *super_block,
                Self::spec_inode_group(*super_block, inode_id),
            ),
        ensures
            *final(self) == old(self).spec_with_checksum_set(*super_block, inode_id),
            exists|block: Seq<u8>|
                {
                    &&& #[trigger] block_device.spec_read(
                        Self::spec_group_descriptor_block_pos(*super_block, inode_id),
                        block,
                    )
                    &&& Self::spec_sync_outcome(
                        block_device,
                        block,
                        *super_block,
                        inode_id,
                        final(self).spec_to_bytes(),
                        r,
                    )
                },
            r matches Err(e) ==> e == Ext4Error::BufferTooShort || e == Ext4Error::PositionOverflow,
    {
        self.set_inode_checksum(super_block, inode_id);
        self.sync_inode_to_disk(block_device, super_block, inode_id)
    }
}

impl Ext4Inode {
    /// Decoding the image of an inode gives the inode back.
    pub proof fn lemma_decode_image<'a>(self, v: &'a [u8])
        requires
            v@ == self.spec_to_bytes(),
        ensures
            <Ext4Inode as vstd::std_specs::convert::TryFromSpec<&'a [u8]>>::try_from_spec(v)
                == Ok::<Ext4Inode, Ext4Error>(self),
    {
        let image = v@.subrange(0, EXT4_INODE_IMAGE_SIZE as int);
        assert(image =~= self.spec_to_bytes());
        let c = choose|x: Ext4Inode| x.spec_to_bytes() == image;
        Ext4Inode::lemma_image_injective(c, self);
    }
}

impl<'a> TryFrom<&'a [u8]> for Ext4Inode {
    type Error = Ext4Error;

    /// Decodes an inode from the first `EXT4_INODE_IMAGE_SIZE` bytes of
    /// `data`; fails when there are fewer.
    fn try_from(data: &'a [u8]) -> (r: Result<Self, Ext4Error>)
        ensures
            r is Ok <==> data@.len() >= EXT4_INODE_IMAGE_SIZE,
            r matches Err(e) ==> e == Ext4Error::BufferTooShort,
            r matches Ok(inode) ==> inode.spec_to_bytes() == data@.subrange(0, EXT4_INODE_IMAGE_SIZE as int),
    {
        if data.len() < EXT4_INODE_IMAGE_SIZE {
            Err(Ext4Error::BufferTooShort)
        } else {
            let inode = Ext4Inode::parse(data, 0);
            proof {
                let image = data@.subrange(0, EXT4_INODE_IMAGE_SIZE as int);
                let c = choose|x: Ext4Inode| x.spec_to_bytes() == image;
                Ext4Inode::lemma_image_injective(c, inode);
            }
            Ok(inode)
        }
    }
}

impl<'a> vstd::std_specs::convert::TryFromSpecImpl<&'a [u8]> for Ext4Inode {
    open spec fn obeys_try_from_spec() -> bool {
        true
    }

    /// The inode whose image is the first `EXT4_INODE_IMAGE_SIZE` bytes.
    open spec fn try_from_spec(v: &'a [u8]) -> Result<Self, Ext4Error> {
        if v@.len() < EXT4_INODE_IMAGE_SIZE {
            Err(Ext4Error::BufferTooShort)
        } else {
            Ok(choose|x: Ext4Inode| x.spec_to_bytes() == v@.subrange(0, EXT4_INODE_IMAGE_SIZE as int))
        }
    }
}

} // verus!
