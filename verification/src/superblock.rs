//! The ext4 superblock: its 1024-byte on-disk image and the geometry it
//! describes.
use vstd::prelude::*;
use crate::bytes::{
    le_u16, le_u32, le_u64, lemma_le_u16_bytes, lemma_le_u32_bytes, lemma_le_u64_bytes,
    lemma_le_u16_of_bytes, lemma_le_u32_of_bytes, lemma_u16_bytes_injective,
    lemma_u32_bytes_injective, lemma_u64_bytes_injective, read_u16, read_u32, read_u32_array, read_u64, read_u8_array, u16_byte,
    u16_byte_at, u32_byte, u32_byte_at, u64_byte, u64_byte_at,
};
use crate::device::{BlockDevice, Ext4Error, BASE_OFFSET};

verus! {

/// Smallest size of a block group descriptor.
pub const EXT4_MIN_BLOCK_GROUP_DESCRIPTOR_SIZE: u16 = 32;

/// Smallest size of a block group descriptor that holds the high halves
/// of its 64-bit fields.
pub const EXT4_MIN_DESC_SIZE_64BIT: u16 = 64;

/// Size in bytes of the superblock's on-disk image.
pub const SUPERBLOCK_SIZE: usize = 1024;

/// The ext4 superblock.
#[derive(Debug, Clone, Copy, PartialEq, Eq)]
pub struct Ext4Superblock {
    inodes_count: u32,             // number of inodes
    blocks_count_lo: u32,          // number of blocks
    reserved_blocks_count_lo: u32, // number of reserved blocks
    free_blocks_count_lo: u32,     // number of free blocks
    free_inodes_count: u32,        // number of free inodes
    first_data_block: u32,         // first data block
    log_block_size: u32,           // block size
    log_cluster_size: u32,         // obsolete fragment size
    blocks_per_group: u32,         // blocks per group
    frags_per_group: u32,          // obsolete fragments per group
    inodes_per_group: u32,         // inodes per group
    mount_time: u32,               // mount time
    write_time: u32,               // write time
    mount_count: u16,              // mount count
    max_mount_count: u16,          // maximal mount count
    magic: u16,                    // magic number, 0xEF53
    state: u16,                    // file system state
    errors: u16,                   // behaviour when errors are detected
    minor_rev_level: u16,          // minor revision level
    last_check_time: u32,          // time of the last check
    check_interval: u32,           // maximal time between checks
    creator_os: u32,               // creator OS
    rev_level: u32,                // revision level
    def_resuid: u16,               // default uid for reserved blocks
    def_resgid: u16,               // default gid for reserved blocks

    // Fields only for EXT4_DYNAMIC_REV superblocks
    first_inode: u32,            // first non-reserved inode
    inode_size: u16,             // size of the inode structure
    block_group_index: u16,      // block group index of this superblock
    features_compatible: u32,    // compatible feature set
    features_incompatible: u32,  // incompatible feature set
    features_read_only: u32,     // read-only compatible feature set
    uuid: [u8; 16],              // 128-bit uuid of the volume
    volume_name: [u8; 16],       // volume name
    last_mounted: [u8; 64],      // directory where last mounted
    algorithm_usage_bitmap: u32, // compression algorithms

    // Performance hints; directory preallocation only when the
    // EXT4_FEATURE_COMPAT_DIR_PREALLOC flag is on
    s_prealloc_blocks: u8,      // number of blocks to try to preallocate
    s_prealloc_dir_blocks: u8,  // number to preallocate for directories
    s_reserved_gdt_blocks: u16, // per-group descriptors reserved for online growth

    // Journaling support, valid if EXT4_FEATURE_COMPAT_HAS_JOURNAL is set
    journal_uuid: [u8; 16],    // uuid of the journal superblock
    journal_inode_number: u32, // inode number of the journal file
    journal_dev: u32,          // device number of the journal file
    last_orphan: u32,          // head of the list of inodes to delete
    hash_seed: [u32; 4],       // HTREE hash seed
    default_hash_version: u8,  // default hash version
    journal_backup_type: u8,
    desc_size: u16,            // size of a group descriptor
    default_mount_opts: u32,   // default mount options
    first_meta_bg: u32,        // first metablock block group
    mkfs_time: u32,            // when the file system was created
    journal_blocks: [u32; 17], // backup of the journal inode

    // 64-bit support, valid if EXT4_FEATURE_COMPAT_64BIT is set
    blocks_count_hi: u32,          // number of blocks
    reserved_blocks_count_hi: u32, // number of reserved blocks
    free_blocks_count_hi: u32,     // number of free blocks
    min_extra_isize: u16,          // all inodes have at least # bytes
    want_extra_isize: u16,         // new inodes should reserve # bytes
    flags: u32,                    // miscellaneous flags
    raid_stride: u16,              // RAID stride
    mmp_interval: u16,             // seconds to wait in MMP checking
    mmp_block: u64,                // block for multi-mount protection
    raid_stripe_width: u32,        // blocks on all data disks (N * stride)
    log_groups_per_flex: u8,       // FLEX_BG group size
    checksum_type: u8,
    reserved_pad: u16,
    kbytes_written: u64,          // number of kilobytes written
    snapshot_inum: u32,           // inode number of the active snapshot
    snapshot_id: u32,             // sequential id of the active snapshot
    snapshot_r_blocks_count: u64, // blocks reserved for the active snapshot's future use
    snapshot_list: u32,           // inode number of the head of the on-disk snapshot list
    error_count: u32,             // number of file system errors
    first_error_time: u32,        // first time an error happened
    first_error_ino: u32,         // inode involved in the first error
    first_error_block: u64,       // block involved in the first error
    first_error_func: [u8; 32],   // function where the first error happened
    first_error_line: u32,        // line number where the first error happened
    last_error_time: u32,         // most recent time of an error
    last_error_ino: u32,          // inode involved in the last error
    last_error_line: u32,         // line number where the last error happened
    last_error_block: u64,        // block involved in the last error
    last_error_func: [u8; 32],    // function where the last error happened
    mount_opts: [u8; 64],
    usr_quota_inum: u32,       // inode for tracking user quota
    grp_quota_inum: u32,       // inode for tracking group quota
    overhead_clusters: u32,    // overhead blocks/clusters in the file system
    backup_bgs: [u32; 2],      // groups with sparse_super2 superblocks
    encrypt_algos: [u8; 4],    // encryption algorithms in use
    encrypt_pw_salt: [u8; 16], // salt for the string2key algorithm
    lpf_ino: u32,              // location of the lost+found inode
    padding: [u32; 100],       // padding to the end of the block
    checksum: u32,             // crc32c(superblock)
}

impl Ext4Superblock {
    /// Byte `i` of the 1024-byte on-disk image.
    #[verifier::opaque]
    pub closed spec fn spec_byte(self, i: int) -> u8 {
        if i < 48 {
            self.image_part0(i)
        } else if i < 82 {
            self.image_part1(i)
        } else if i < 205 {
            self.image_part2(i)
        } else if i < 264 {
            self.image_part3(i)
        } else if i < 372 {
            self.image_part4(i)
        } else if i < 424 {
            self.image_part5(i)
        } else if i < 596 {
            self.image_part6(i)
        } else {
            self.image_part7(i)
        }
    }

    #[verifier::opaque]
    spec fn image_part0(self, i: int) -> u8 {
        if i < 4 {
            u32_byte(self.inodes_count, i)
        } else if i < 8 {
            u32_byte(self.blocks_count_lo, i - 4)
        } else if i < 12 {
            u32_byte(self.reserved_blocks_count_lo, i - 8)
        } else if i < 16 {
            u32_byte(self.free_blocks_count_lo, i - 12)
        } else if i < 20 {
            u32_byte(self.free_inodes_count, i - 16)
        } else if i < 24 {
            u32_byte(self.first_data_block, i - 20)
        } else if i < 28 {
            u32_byte(self.log_block_size, i - 24)
        } else if i < 32 {
            u32_byte(self.log_cluster_size, i - 28)
        } else if i < 36 {
            u32_byte(self.blocks_per_group, i - 32)
        } else if i < 40 {
            u32_byte(self.frags_per_group, i - 36)
        } else if i < 44 {
            u32_byte(self.inodes_per_group, i - 40)
        } else {
            u32_byte(self.mount_time, i - 44)
        }
    }

    #[verifier::opaque]
    spec fn image_part1(self, i: int) -> u8 {
        if i < 52 {
            u32_byte(self.write_time, i - 48)
        } else if i < 54 {
            u16_byte(self.mount_count, i - 52)
        } else if i < 56 {
            u16_byte(self.max_mount_count, i - 54)
        } else if i < 58 {
            u16_byte(self.magic, i - 56)
        } else if i < 60 {
            u16_byte(self.state, i - 58)
        } else if i < 62 {
            u16_byte(self.errors, i - 60)
        } else if i < 64 {
            u16_byte(self.minor_rev_level, i - 62)
        } else if i < 68 {
            u32_byte(self.last_check_time, i - 64)
        } else if i < 72 {
            u32_byte(self.check_interval, i - 68)
        } else if i < 76 {
            u32_byte(self.creator_os, i - 72)
        } else if i < 80 {
            u32_byte(self.rev_level, i - 76)
        } else {
            u16_byte(self.def_resuid, i - 80)
        }
    }

    #[verifier::opaque]
    spec fn image_part2(self, i: int) -> u8 {
        if i < 84 {
            u16_byte(self.def_resgid, i - 82)
        } else if i < 88 {
            u32_byte(self.first_inode, i - 84)
        } else if i < 90 {
            u16_byte(self.inode_size, i - 88)
        } else if i < 92 {
            u16_byte(self.block_group_index, i - 90)
        } else if i < 96 {
            u32_byte(self.features_compatible, i - 92)
        } else if i < 100 {
            u32_byte(self.features_incompatible, i - 96)
        } else if i < 104 {
            u32_byte(self.features_read_only, i - 100)
        } else if i < 120 {
            self.uuid[i - 104]
        } else if i < 136 {
            self.volume_name[i - 120]
        } else if i < 200 {
            self.last_mounted[i - 136]
        } else if i < 204 {
            u32_byte(self.algorithm_usage_bitmap, i - 200)
        } else {
            self.s_prealloc_blocks
        }
    }

    #[verifier::opaque]
    spec fn image_part3(self, i: int) -> u8 {
        if i < 206 {
            self.s_prealloc_dir_blocks
        } else if i < 208 {
            u16_byte(self.s_reserved_gdt_blocks, i - 206)
        } else if i < 224 {
            self.journal_uuid[i - 208]
        } else if i < 228 {
            u32_byte(self.journal_inode_number, i - 224)
        } else if i < 232 {
            u32_byte(self.journal_dev, i - 228)
        } else if i < 236 {
            u32_byte(self.last_orphan, i - 232)
        } else if i < 252 {
            u32_byte(self.hash_seed[(i - 236) / 4], (i - 236) % 4)
        } else if i < 253 {
            self.default_hash_version
        } else if i < 254 {
            self.journal_backup_type
        } else if i < 256 {
            u16_byte(self.desc_size, i - 254)
        } else if i < 260 {
            u32_byte(self.default_mount_opts, i - 256)
        } else {
            u32_byte(self.first_meta_bg, i - 260)
        }
    }

    #[verifier::opaque]
    spec fn image_part4(self, i: int) -> u8 {
        if i < 268 {
            u32_byte(self.mkfs_time, i - 264)
        } else if i < 336 {
            u32_byte(self.journal_blocks[(i - 268) / 4], (i - 268) % 4)
        } else if i < 340 {
            u32_byte(self.blocks_count_hi, i - 336)
        } else if i < 344 {
            u32_byte(self.reserved_blocks_count_hi, i - 340)
        } else if i < 348 {
            u32_byte(self.free_blocks_count_hi, i - 344)
        } else if i < 350 {
            u16_byte(self.min_extra_isize, i - 348)
        } else if i < 352 {
            u16_byte(self.want_extra_isize, i - 350)
        } else if i < 356 {
            u32_byte(self.flags, i - 352)
        } else if i < 358 {
            u16_byte(self.raid_stride, i - 356)
        } else if i < 360 {
            u16_byte(self.mmp_interval, i - 358)
        } else if i < 368 {
            u64_byte(self.mmp_block, i - 360)
        } else {
            u32_byte(self.raid_stripe_width, i - 368)
        }
    }

    #[verifier::opaque]
    spec fn image_part5(self, i: int) -> u8 {
        if i < 373 {
            self.log_groups_per_flex
        } else if i < 374 {
            self.checksum_type
        } else if i < 376 {
            u16_byte(self.reserved_pad, i - 374)
        } else if i < 384 {
            u64_byte(self.kbytes_written, i - 376)
        } else if i < 388 {
            u32_byte(self.snapshot_inum, i - 384)
        } else if i < 392 {
            u32_byte(self.snapshot_id, i - 388)
        } else if i < 400 {
            u64_byte(self.snapshot_r_blocks_count, i - 392)
        } else if i < 404 {
            u32_byte(self.snapshot_list, i - 400)
        } else if i < 408 {
            u32_byte(self.error_count, i - 404)
        } else if i < 412 {
            u32_byte(self.first_error_time, i - 408)
        } else if i < 416 {
            u32_byte(self.first_error_ino, i - 412)
        } else {
            u64_byte(self.first_error_block, i - 416)
        }
    }

    #[verifier::opaque]
    spec fn image_part6(self, i: int) -> u8 {
        if i < 456 {
            self.first_error_func[i - 424]
        } else if i < 460 {
            u32_byte(self.first_error_line, i - 456)
        } else if i < 464 {
            u32_byte(self.last_error_time, i - 460)
        } else if i < 468 {
            u32_byte(self.last_error_ino, i - 464)
        } else if i < 472 {
            u32_byte(self.last_error_line, i - 468)
        } else if i < 480 {
            u64_byte(self.last_error_block, i - 472)
        } else if i < 512 {
            self.last_error_func[i - 480]
        } else if i < 576 {
            self.mount_opts[i - 512]
        } else if i < 580 {
            u32_byte(self.usr_quota_inum, i - 576)
        } else if i < 584 {
            u32_byte(self.grp_quota_inum, i - 580)
        } else if i < 588 {
            u32_byte(self.overhead_clusters, i - 584)
        } else {
            u32_byte(self.backup_bgs[(i - 588) / 4], (i - 588) % 4)
        }
    }

    #[verifier::opaque]
    spec fn image_part7(self, i: int) -> u8 {
        if i < 600 {
            self.encrypt_algos[i - 596]
        } else if i < 616 {
            self.encrypt_pw_salt[i - 600]
        } else if i < 620 {
            u32_byte(self.lpf_ino, i - 616)
        } else if i < 1020 {
            u32_byte(self.padding[(i - 620) / 4], (i - 620) % 4)
        } else {
            u32_byte(self.checksum, i - 1020)
        }
    }

    /// The 1024-byte on-disk image: the fields in declaration order, each
    /// little-endian, with no padding.
    pub open spec fn spec_to_bytes(self) -> Seq<u8> {
        Seq::new(1024, |i: int| self.spec_byte(i))
    }

    fn byte(&self, i: usize) -> (b: u8)
        requires
            i < 1024,
        ensures
            b == self.spec_byte(i as int),
    {
        proof {
            reveal(Ext4Superblock::spec_byte);
        }
        if i < 48 {
            self.byte_part0(i)
        } else if i < 82 {
            self.byte_part1(i)
        } else if i < 205 {
            self.byte_part2(i)
        } else if i < 264 {
            self.byte_part3(i)
        } else if i < 372 {
            self.byte_part4(i)
        } else if i < 424 {
            self.byte_part5(i)
        } else if i < 596 {
            self.byte_part6(i)
        } else {
            self.byte_part7(i)
        }
    }

    fn byte_part0(&self, i: usize) -> (b: u8)
        requires
            i < 48,
        ensures
            b == self.image_part0(i as int),
    {
        proof {
            reveal(Ext4Superblock::image_part0);
        }
        if i < 4 {
            u32_byte_at(self.inodes_count, i)
        } else if i < 8 {
            u32_byte_at(self.blocks_count_lo, i - 4)
        } else if i < 12 {
            u32_byte_at(self.reserved_blocks_count_lo, i - 8)
        } else if i < 16 {
            u32_byte_at(self.free_blocks_count_lo, i - 12)
        } else if i < 20 {
            u32_byte_at(self.free_inodes_count, i - 16)
        } else if i < 24 {
            u32_byte_at(self.first_data_block, i - 20)
        } else if i < 28 {
            u32_byte_at(self.log_block_size, i - 24)
        } else if i < 32 {
            u32_byte_at(self.log_cluster_size, i - 28)
        } else if i < 36 {
            u32_byte_at(self.blocks_per_group, i - 32)
        } else if i < 40 {
            u32_byte_at(self.frags_per_group, i - 36)
        } else if i < 44 {
            u32_byte_at(self.inodes_per_group, i - 40)
        } else {
            u32_byte_at(self.mount_time, i - 44)
        }
    }

    fn byte_part1(&self, i: usize) -> (b: u8)
        requires
            48 <= i < 82,
        ensures
            b == self.image_part1(i as int),
    {
        proof {
            reveal(Ext4Superblock::image_part1);
        }
        if i < 52 {
            u32_byte_at(self.write_time, i - 48)
        } else if i < 54 {
            u16_byte_at(self.mount_count, i - 52)
        } else if i < 56 {
            u16_byte_at(self.max_mount_count, i - 54)
        } else if i < 58 {
            u16_byte_at(self.magic, i - 56)
        } else if i < 60 {
            u16_byte_at(self.state, i - 58)
        } else if i < 62 {
            u16_byte_at(self.errors, i - 60)
        } else if i < 64 {
            u16_byte_at(self.minor_rev_level, i - 62)
        } else if i < 68 {
            u32_byte_at(self.last_check_time, i - 64)
        } else if i < 72 {
            u32_byte_at(self.check_interval, i - 68)
        } else if i < 76 {
            u32_byte_at(self.creator_os, i - 72)
        } else if i < 80 {
            u32_byte_at(self.rev_level, i - 76)
        } else {
            u16_byte_at(self.def_resuid, i - 80)
        }
    }

    fn byte_part2(&self, i: usize) -> (b: u8)
        requires
            82 <= i < 205,
        ensures
            b == self.image_part2(i as int),
    {
        proof {
            reveal(Ext4Superblock::image_part2);
        }
        if i < 84 {
            u16_byte_at(self.def_resgid, i - 82)
        } else if i < 88 {
            u32_byte_at(self.first_inode, i - 84)
        } else if i < 90 {
            u16_byte_at(self.inode_size, i - 88)
        } else if i < 92 {
            u16_byte_at(self.block_group_index, i - 90)
        } else if i < 96 {
            u32_byte_at(self.features_compatible, i - 92)
        } else if i < 100 {
            u32_byte_at(self.features_incompatible, i - 96)
        } else if i < 104 {
            u32_byte_at(self.features_read_only, i - 100)
        } else if i < 120 {
            self.uuid[i - 104]
        } else if i < 136 {
            self.volume_name[i - 120]
        } else if i < 200 {
            self.last_mounted[i - 136]
        } else if i < 204 {
            u32_byte_at(self.algorithm_usage_bitmap, i - 200)
        } else {
            self.s_prealloc_blocks
        }
    }

    fn byte_part3(&self, i: usize) -> (b: u8)
        requires
            205 <= i < 264,
        ensures
            b == self.image_part3(i as int),
    {
        proof {
            reveal(Ext4Superblock::image_part3);
        }
        if i < 206 {
            self.s_prealloc_dir_blocks
        } else if i < 208 {
            u16_byte_at(self.s_reserved_gdt_blocks, i - 206)
        } else if i < 224 {
            self.journal_uuid[i - 208]
        } else if i < 228 {
            u32_byte_at(self.journal_inode_number, i - 224)
        } else if i < 232 {
            u32_byte_at(self.journal_dev, i - 228)
        } else if i < 236 {
            u32_byte_at(self.last_orphan, i - 232)
        } else if i < 252 {
            u32_byte_at(self.hash_seed[(i - 236) / 4], (i - 236) % 4)
        } else if i < 253 {
            self.default_hash_version
        } else if i < 254 {
            self.journal_backup_type
        } else if i < 256 {
            u16_byte_at(self.desc_size, i - 254)
        } else if i < 260 {
            u32_byte_at(self.default_mount_opts, i - 256)
        } else {
            u32_byte_at(self.first_meta_bg, i - 260)
        }
    }

    fn byte_part4(&self, i: usize) -> (b: u8)
        requires
            264 <= i < 372,
        ensures
            b == self.image_part4(i as int),
    {
        proof {
            reveal(Ext4Superblock::image_part4);
        }
        if i < 268 {
            u32_byte_at(self.mkfs_time, i - 264)
        } else if i < 336 {
            u32_byte_at(self.journal_blocks[(i - 268) / 4], (i - 268) % 4)
        } else if i < 340 {
            u32_byte_at(self.blocks_count_hi, i - 336)
        } else if i < 344 {
            u32_byte_at(self.reserved_blocks_count_hi, i - 340)
        } else if i < 348 {
            u32_byte_at(self.free_blocks_count_hi, i - 344)
        } else if i < 350 {
            u16_byte_at(self.min_extra_isize, i - 348)
        } else if i < 352 {
            u16_byte_at(self.want_extra_isize, i - 350)
        } else if i < 356 {
            u32_byte_at(self.flags, i - 352)
        } else if i < 358 {
            u16_byte_at(self.raid_stride, i - 356)
        } else if i < 360 {
            u16_byte_at(self.mmp_interval, i - 358)
        } else if i < 368 {
            u64_byte_at(self.mmp_block, i - 360)
        } else {
            u32_byte_at(self.raid_stripe_width, i - 368)
        }
    }

    fn byte_part5(&self, i: usize) -> (b: u8)
        requires
            372 <= i < 424,
        ensures
            b == self.image_part5(i as int),
    {
        proof {
            reveal(Ext4Superblock::image_part5);
        }
        if i < 373 {
            self.log_groups_per_flex
        } else if i < 374 {
            self.checksum_type
        } else if i < 376 {
            u16_byte_at(self.reserved_pad, i - 374)
        } else if i < 384 {
            u64_byte_at(self.kbytes_written, i - 376)
        } else if i < 388 {
            u32_byte_at(self.snapshot_inum, i - 384)
        } else if i < 392 {
            u32_byte_at(self.snapshot_id, i - 388)
        } else if i < 400 {
            u64_byte_at(self.snapshot_r_blocks_count, i - 392)
        } else if i < 404 {
            u32_byte_at(self.snapshot_list, i - 400)
        } else if i < 408 {
            u32_byte_at(self.error_count, i - 404)
        } else if i < 412 {
            u32_byte_at(self.first_error_time, i - 408)
        } else if i < 416 {
            u32_byte_at(self.first_error_ino, i - 412)
        } else {
            u64_byte_at(self.first_error_block, i - 416)
        }
    }

    fn byte_part6(&self, i: usize) -> (b: u8)
        requires
            424 <= i < 596,
        ensures
            b == self.image_part6(i as int),
    {
        proof {
            reveal(Ext4Superblock::image_part6);
        }
        if i < 456 {
            self.first_error_func[i - 424]
        } else if i < 460 {
            u32_byte_at(self.first_error_line, i - 456)
        } else if i < 464 {
            u32_byte_at(self.last_error_time, i - 460)
        } else if i < 468 {
            u32_byte_at(self.last_error_ino, i - 464)
        } else if i < 472 {
            u32_byte_at(self.last_error_line, i - 468)
        } else if i < 480 {
            u64_byte_at(self.last_error_block, i - 472)
        } else if i < 512 {
            self.last_error_func[i - 480]
        } else if i < 576 {
            self.mount_opts[i - 512]
        } else if i < 580 {
            u32_byte_at(self.usr_quota_inum, i - 576)
        } else if i < 584 {
            u32_byte_at(self.grp_quota_inum, i - 580)
        } else if i < 588 {
            u32_byte_at(self.overhead_clusters, i - 584)
        } else {
            u32_byte_at(self.backup_bgs[(i - 588) / 4], (i - 588) % 4)
        }
    }

    fn byte_part7(&self, i: usize) -> (b: u8)
        requires
            596 <= i < 1024,
        ensures
            b == self.image_part7(i as int),
    {
        proof {
            reveal(Ext4Superblock::image_part7);
        }
        if i < 600 {
            self.encrypt_algos[i - 596]
        } else if i < 616 {
            self.encrypt_pw_salt[i - 600]
        } else if i < 620 {
            u32_byte_at(self.lpf_ino, i - 616)
        } else if i < 1020 {
            u32_byte_at(self.padding[(i - 620) / 4], (i - 620) % 4)
        } else {
            u32_byte_at(self.checksum, i - 1020)
        }
    }

    /// The on-disk image of `self`.
    pub fn to_bytes(&self) -> (r: Vec<u8>)
        ensures
            r@ == self.spec_to_bytes(),
    {
        let mut v: Vec<u8> = Vec::new();
        let mut i: usize = 0;
        while i < 1024
            invariant
                i <= 1024,
                v@.len() == i,
                forall|k: int| 0 <= k < i ==> v@[k] == self.spec_byte(k),
            decreases 1024 - i,
        {
            let b: u8 = self.byte(i);
            v.push(b);
            i = i + 1;
        }
        assert(v@ =~= self.spec_to_bytes());
        v
    }

    /// Decodes the image that starts at `off` in `data`.
    #[verifier::rlimit(100)]
    pub fn parse(data: &[u8], off: usize) -> (r: Self)
        requires
            off + 1024 <= data@.len(),
        ensures
            r.spec_to_bytes() == data@.subrange(off as int, off + 1024),
    {
        let len: usize = data.len();
        let inodes_count: u32 = read_u32(data, off);
        let blocks_count_lo: u32 = read_u32(data, off + 4);
        let reserved_blocks_count_lo: u32 = read_u32(data, off + 8);
        let free_blocks_count_lo: u32 = read_u32(data, off + 12);
        let free_inodes_count: u32 = read_u32(data, off + 16);
        let first_data_block: u32 = read_u32(data, off + 20);
        let log_block_size: u32 = read_u32(data, off + 24);
        let log_cluster_size: u32 = read_u32(data, off + 28);
        let blocks_per_group: u32 = read_u32(data, off + 32);
        let frags_per_group: u32 = read_u32(data, off + 36);
        let inodes_per_group: u32 = read_u32(data, off + 40);
        let mount_time: u32 = read_u32(data, off + 44);
        let write_time: u32 = read_u32(data, off + 48);
        let mount_count: u16 = read_u16(data, off + 52);
        let max_mount_count: u16 = read_u16(data, off + 54);
        let magic: u16 = read_u16(data, off + 56);
        let state: u16 = read_u16(data, off + 58);
        let errors: u16 = read_u16(data, off + 60);
        let minor_rev_level: u16 = read_u16(data, off + 62);
        let last_check_time: u32 = read_u32(data, off + 64);
        let check_interval: u32 = read_u32(data, off + 68);
        let creator_os: u32 = read_u32(data, off + 72);
        let rev_level: u32 = read_u32(data, off + 76);
        let def_resuid: u16 = read_u16(data, off + 80);
        let def_resgid: u16 = read_u16(data, off + 82);
        let first_inode: u32 = read_u32(data, off + 84);
        let inode_size: u16 = read_u16(data, off + 88);
        let block_group_index: u16 = read_u16(data, off + 90);
        let features_compatible: u32 = read_u32(data, off + 92);
        let features_incompatible: u32 = read_u32(data, off + 96);
        let features_read_only: u32 = read_u32(data, off + 100);
        let mut uuid: [u8; 16] = [0u8; 16];
        read_u8_array(&mut uuid, data, off + 104);
        let mut volume_name: [u8; 16] = [0u8; 16];
        read_u8_array(&mut volume_name, data, off + 120);
        let mut last_mounted: [u8; 64] = [0u8; 64];
        read_u8_array(&mut last_mounted, data, off + 136);
        let algorithm_usage_bitmap: u32 = read_u32(data, off + 200);
        let s_prealloc_blocks: u8 = data[off + 204];
        let s_prealloc_dir_blocks: u8 = data[off + 205];
        let s_reserved_gdt_blocks: u16 = read_u16(data, off + 206);
        let mut journal_uuid: [u8; 16] = [0u8; 16];
        read_u8_array(&mut journal_uuid, data, off + 208);
        let journal_inode_number: u32 = read_u32(data, off + 224);
        let journal_dev: u32 = read_u32(data, off + 228);
        let last_orphan: u32 = read_u32(data, off + 232);
        let mut hash_seed: [u32; 4] = [0u32; 4];
        read_u32_array(&mut hash_seed, data, off + 236);
        let default_hash_version: u8 = data[off + 252];
        let journal_backup_type: u8 = data[off + 253];
        let desc_size: u16 = read_u16(data, off + 254);
        let default_mount_opts: u32 = read_u32(data, off + 256);
        let first_meta_bg: u32 = read_u32(data, off + 260);
        let mkfs_time: u32 = read_u32(data, off + 264);
        let mut journal_blocks: [u32; 17] = [0u32; 17];
        read_u32_array(&mut journal_blocks, data, off + 268);
        let blocks_count_hi: u32 = read_u32(data, off + 336);
        let reserved_blocks_count_hi: u32 = read_u32(data, off + 340);
        let free_blocks_count_hi: u32 = read_u32(data, off + 344);
        let min_extra_isize: u16 = read_u16(data, off + 348);
        let want_extra_isize: u16 = read_u16(data, off + 350);
        let flags: u32 = read_u32(data, off + 352);
        let raid_stride: u16 = read_u16(data, off + 356);
        let mmp_interval: u16 = read_u16(data, off + 358);
        let mmp_block: u64 = read_u64(data, off + 360);
        let raid_stripe_width: u32 = read_u32(data, off + 368);
        let log_groups_per_flex: u8 = data[off + 372];
        let checksum_type: u8 = data[off + 373];
        let reserved_pad: u16 = read_u16(data, off + 374);
        let kbytes_written: u64 = read_u64(data, off + 376);
        let snapshot_inum: u32 = read_u32(data, off + 384);
        let snapshot_id: u32 = read_u32(data, off + 388);
        let snapshot_r_blocks_count: u64 = read_u64(data, off + 392);
        let snapshot_list: u32 = read_u32(data, off + 400);
        let error_count: u32 = read_u32(data, off + 404);
        let first_error_time: u32 = read_u32(data, off + 408);
        let first_error_ino: u32 = read_u32(data, off + 412);
        let first_error_block: u64 = read_u64(data, off + 416);
        let mut first_error_func: [u8; 32] = [0u8; 32];
        read_u8_array(&mut first_error_func, data, off + 424);
        let first_error_line: u32 = read_u32(data, off + 456);
        let last_error_time: u32 = read_u32(data, off + 460);
        let last_error_ino: u32 = read_u32(data, off + 464);
        let last_error_line: u32 = read_u32(data, off + 468);
        let last_error_block: u64 = read_u64(data, off + 472);
        let mut last_error_func: [u8; 32] = [0u8; 32];
        read_u8_array(&mut last_error_func, data, off + 480);
        let mut mount_opts: [u8; 64] = [0u8; 64];
        read_u8_array(&mut mount_opts, data, off + 512);
        let usr_quota_inum: u32 = read_u32(data, off + 576);
        let grp_quota_inum: u32 = read_u32(data, off + 580);
        let overhead_clusters: u32 = read_u32(data, off + 584);
        let mut backup_bgs: [u32; 2] = [0u32; 2];
        read_u32_array(&mut backup_bgs, data, off + 588);
        let mut encrypt_algos: [u8; 4] = [0u8; 4];
        read_u8_array(&mut encrypt_algos, data, off + 596);
        let mut encrypt_pw_salt: [u8; 16] = [0u8; 16];
        read_u8_array(&mut encrypt_pw_salt, data, off + 600);
        let lpf_ino: u32 = read_u32(data, off + 616);
        let mut padding: [u32; 100] = [0u32; 100];
        read_u32_array(&mut padding, data, off + 620);
        let checksum: u32 = read_u32(data, off + 1020);
        let r = Ext4Superblock {
            inodes_count,
            blocks_count_lo,
            reserved_blocks_count_lo,
            free_blocks_count_lo,
            free_inodes_count,
            first_data_block,
            log_block_size,
            log_cluster_size,
            blocks_per_group,
            frags_per_group,
            inodes_per_group,
            mount_time,
            write_time,
            mount_count,
            max_mount_count,
            magic,
            state,
            errors,
            minor_rev_level,
            last_check_time,
            check_interval,
            creator_os,
            rev_level,
            def_resuid,
            def_resgid,
            first_inode,
            inode_size,
            block_group_index,
            features_compatible,
            features_incompatible,
            features_read_only,
            uuid,
            volume_name,
            last_mounted,
            algorithm_usage_bitmap,
            s_prealloc_blocks,
            s_prealloc_dir_blocks,
            s_reserved_gdt_blocks,
            journal_uuid,
            journal_inode_number,
            journal_dev,
            last_orphan,
            hash_seed,
            default_hash_version,
            journal_backup_type,
            desc_size,
            default_mount_opts,
            first_meta_bg,
            mkfs_time,
            journal_blocks,
            blocks_count_hi,
            reserved_blocks_count_hi,
            free_blocks_count_hi,
            min_extra_isize,
            want_extra_isize,
            flags,
            raid_stride,
            mmp_interval,
            mmp_block,
            raid_stripe_width,
            log_groups_per_flex,
            checksum_type,
            reserved_pad,
            kbytes_written,
            snapshot_inum,
            snapshot_id,
            snapshot_r_blocks_count,
            snapshot_list,
            error_count,
            first_error_time,
            first_error_ino,
            first_error_block,
            first_error_func,
            first_error_line,
            last_error_time,
            last_error_ino,
            last_error_line,
            last_error_block,
            last_error_func,
            mount_opts,
            usr_quota_inum,
            grp_quota_inum,
            overhead_clusters,
            backup_bgs,
            encrypt_algos,
            encrypt_pw_salt,
            lpf_ino,
            padding,
            checksum,
        };
        proof {
            Ext4Superblock::lemma_parse_part0(r, data@, off as int);
            Ext4Superblock::lemma_parse_part1(r, data@, off as int);
            Ext4Superblock::lemma_parse_part2(r, data@, off as int);
            Ext4Superblock::lemma_parse_part3(r, data@, off as int);
            Ext4Superblock::lemma_parse_part4(r, data@, off as int);
            Ext4Superblock::lemma_parse_part5(r, data@, off as int);
            Ext4Superblock::lemma_parse_part6(r, data@, off as int);
            Ext4Superblock::lemma_parse_part7(r, data@, off as int);
            Ext4Superblock::lemma_parse_join(r, data@, off as int);
        }
        r
    }

    proof fn lemma_parse_join(r: Self, data: Seq<u8>, off: int)
        requires
            0 <= off,
            off + 1024 <= data.len(),
            forall|i: int| 0 <= i < 48 ==> #[trigger] r.spec_byte(i) == data[off + i],
            forall|i: int| 48 <= i < 82 ==> #[trigger] r.spec_byte(i) == data[off + i],
            forall|i: int| 82 <= i < 205 ==> #[trigger] r.spec_byte(i) == data[off + i],
            forall|i: int| 205 <= i < 264 ==> #[trigger] r.spec_byte(i) == data[off + i],
            forall|i: int| 264 <= i < 372 ==> #[trigger] r.spec_byte(i) == data[off + i],
            forall|i: int| 372 <= i < 424 ==> #[trigger] r.spec_byte(i) == data[off + i],
            forall|i: int| 424 <= i < 596 ==> #[trigger] r.spec_byte(i) == data[off + i],
            forall|i: int| 596 <= i < 1024 ==> #[trigger] r.spec_byte(i) == data[off + i],
        ensures
            r.spec_to_bytes() == data.subrange(off, off + 1024),
    {
        assert(r.spec_to_bytes() =~= data.subrange(off, off + 1024));
    }

    proof fn lemma_parse_part0(r: Self, data: Seq<u8>, off: int)
        requires
            0 <= off,
            off + 1024 <= data.len(),
            r.inodes_count == le_u32(data, off),
            r.blocks_count_lo == le_u32(data, off + 4),
            r.reserved_blocks_count_lo == le_u32(data, off + 8),
            r.free_blocks_count_lo == le_u32(data, off + 12),
            r.free_inodes_count == le_u32(data, off + 16),
            r.first_data_block == le_u32(data, off + 20),
            r.log_block_size == le_u32(data, off + 24),
            r.log_cluster_size == le_u32(data, off + 28),
            r.blocks_per_group == le_u32(data, off + 32),
            r.frags_per_group == le_u32(data, off + 36),
            r.inodes_per_group == le_u32(data, off + 40),
            r.mount_time == le_u32(data, off + 44),
        ensures
            forall|i: int| 0 <= i < 48 ==> #[trigger] r.spec_byte(i) == data[off + i],
    {
        assert forall|i: int| 0 <= i < 4 implies #[trigger] r.spec_byte(i) == data[off + i] by {
            reveal(Ext4Superblock::spec_byte);
            reveal(Ext4Superblock::image_part0);
            lemma_le_u32_bytes(data, off);
        }
        assert forall|i: int| 4 <= i < 8 implies #[trigger] r.spec_byte(i) == data[off + i] by {
            reveal(Ext4Superblock::spec_byte);
            reveal(Ext4Superblock::image_part0);
            lemma_le_u32_bytes(data, off + 4);
        }
        assert forall|i: int| 8 <= i < 12 implies #[trigger] r.spec_byte(i) == data[off + i] by {
            reveal(Ext4Superblock::spec_byte);
            reveal(Ext4Superblock::image_part0);
            lemma_le_u32_bytes(data, off + 8);
        }
        assert forall|i: int| 12 <= i < 16 implies #[trigger] r.spec_byte(i) == data[off + i] by {
            reveal(Ext4Superblock::spec_byte);
            reveal(Ext4Superblock::image_part0);
            lemma_le_u32_bytes(data, off + 12);
        }
        assert forall|i: int| 16 <= i < 20 implies #[trigger] r.spec_byte(i) == data[off + i] by {
            reveal(Ext4Superblock::spec_byte);
            reveal(Ext4Superblock::image_part0);
            lemma_le_u32_bytes(data, off + 16);
        }
        assert forall|i: int| 20 <= i < 24 implies #[trigger] r.spec_byte(i) == data[off + i] by {
            reveal(Ext4Superblock::spec_byte);
            reveal(Ext4Superblock::image_part0);
            lemma_le_u32_bytes(data, off + 20);
        }
        assert forall|i: int| 24 <= i < 28 implies #[trigger] r.spec_byte(i) == data[off + i] by {
            reveal(Ext4Superblock::spec_byte);
            reveal(Ext4Superblock::image_part0);
            lemma_le_u32_bytes(data, off + 24);
        }
        assert forall|i: int| 28 <= i < 32 implies #[trigger] r.spec_byte(i) == data[off + i] by {
            reveal(Ext4Superblock::spec_byte);
            reveal(Ext4Superblock::image_part0);
            lemma_le_u32_bytes(data, off + 28);
        }
        assert forall|i: int| 32 <= i < 36 implies #[trigger] r.spec_byte(i) == data[off + i] by {
            reveal(Ext4Superblock::spec_byte);
            reveal(Ext4Superblock::image_part0);
            lemma_le_u32_bytes(data, off + 32);
        }
        assert forall|i: int| 36 <= i < 40 implies #[trigger] r.spec_byte(i) == data[off + i] by {
            reveal(Ext4Superblock::spec_byte);
            reveal(Ext4Superblock::image_part0);
            lemma_le_u32_bytes(data, off + 36);
        }
        assert forall|i: int| 40 <= i < 44 implies #[trigger] r.spec_byte(i) == data[off + i] by {
            reveal(Ext4Superblock::spec_byte);
            reveal(Ext4Superblock::image_part0);
            lemma_le_u32_bytes(data, off + 40);
        }
        assert forall|i: int| 44 <= i < 48 implies #[trigger] r.spec_byte(i) == data[off + i] by {
            reveal(Ext4Superblock::spec_byte);
            reveal(Ext4Superblock::image_part0);
            lemma_le_u32_bytes(data, off + 44);
        }
    }

    proof fn lemma_parse_part1(r: Self, data: Seq<u8>, off: int)
        requires
            0 <= off,
            off + 1024 <= data.len(),
            r.write_time == le_u32(data, off + 48),
            r.mount_count == le_u16(data, off + 52),
            r.max_mount_count == le_u16(data, off + 54),
            r.magic == le_u16(data, off + 56),
            r.state == le_u16(data, off + 58),
            r.errors == le_u16(data, off + 60),
            r.minor_rev_level == le_u16(data, off + 62),
            r.last_check_time == le_u32(data, off + 64),
            r.check_interval == le_u32(data, off + 68),
            r.creator_os == le_u32(data, off + 72),
            r.rev_level == le_u32(data, off + 76),
            r.def_resuid == le_u16(data, off + 80),
        ensures
            forall|i: int| 48 <= i < 82 ==> #[trigger] r.spec_byte(i) == data[off + i],
    {
        assert forall|i: int| 48 <= i < 52 implies #[trigger] r.spec_byte(i) == data[off + i] by {
            reveal(Ext4Superblock::spec_byte);
            reveal(Ext4Superblock::image_part1);
            lemma_le_u32_bytes(data, off + 48);
        }
        assert forall|i: int| 52 <= i < 54 implies #[trigger] r.spec_byte(i) == data[off + i] by {
            reveal(Ext4Superblock::spec_byte);
            reveal(Ext4Superblock::image_part1);
            lemma_le_u16_bytes(data, off + 52);
        }
        assert forall|i: int| 54 <= i < 56 implies #[trigger] r.spec_byte(i) == data[off + i] by {
            reveal(Ext4Superblock::spec_byte);
            reveal(Ext4Superblock::image_part1);
            lemma_le_u16_bytes(data, off + 54);
        }
        assert forall|i: int| 56 <= i < 58 implies #[trigger] r.spec_byte(i) == data[off + i] by {
            reveal(Ext4Superblock::spec_byte);
            reveal(Ext4Superblock::image_part1);
            lemma_le_u16_bytes(data, off + 56);
        }
        assert forall|i: int| 58 <= i < 60 implies #[trigger] r.spec_byte(i) == data[off + i] by {
            reveal(Ext4Superblock::spec_byte);
            reveal(Ext4Superblock::image_part1);
            lemma_le_u16_bytes(data, off + 58);
        }
        assert forall|i: int| 60 <= i < 62 implies #[trigger] r.spec_byte(i) == data[off + i] by {
            reveal(Ext4Superblock::spec_byte);
            reveal(Ext4Superblock::image_part1);
            lemma_le_u16_bytes(data, off + 60);
        }
        assert forall|i: int| 62 <= i < 64 implies #[trigger] r.spec_byte(i) == data[off + i] by {
            reveal(Ext4Superblock::spec_byte);
            reveal(Ext4Superblock::image_part1);
            lemma_le_u16_bytes(data, off + 62);
        }
        assert forall|i: int| 64 <= i < 68 implies #[trigger] r.spec_byte(i) == data[off + i] by {
            reveal(Ext4Superblock::spec_byte);
            reveal(Ext4Superblock::image_part1);
            lemma_le_u32_bytes(data, off + 64);
        }
        assert forall|i: int| 68 <= i < 72 implies #[trigger] r.spec_byte(i) == data[off + i] by {
            reveal(Ext4Superblock::spec_byte);
            reveal(Ext4Superblock::image_part1);
            lemma_le_u32_bytes(data, off + 68);
        }
        assert forall|i: int| 72 <= i < 76 implies #[trigger] r.spec_byte(i) == data[off + i] by {
            reveal(Ext4Superblock::spec_byte);
            reveal(Ext4Superblock::image_part1);
            lemma_le_u32_bytes(data, off + 72);
        }
        assert forall|i: int| 76 <= i < 80 implies #[trigger] r.spec_byte(i) == data[off + i] by {
            reveal(Ext4Superblock::spec_byte);
            reveal(Ext4Superblock::image_part1);
            lemma_le_u32_bytes(data, off + 76);
        }
        assert forall|i: int| 80 <= i < 82 implies #[trigger] r.spec_byte(i) == data[off + i] by {
            reveal(Ext4Superblock::spec_byte);
            reveal(Ext4Superblock::image_part1);
            lemma_le_u16_bytes(data, off + 80);
        }
    }

    proof fn lemma_parse_part2(r: Self, data: Seq<u8>, off: int)
        requires
            0 <= off,
            off + 1024 <= data.len(),
            r.def_resgid == le_u16(data, off + 82),
            r.first_inode == le_u32(data, off + 84),
            r.inode_size == le_u16(data, off + 88),
            r.block_group_index == le_u16(data, off + 90),
            r.features_compatible == le_u32(data, off + 92),
            r.features_incompatible == le_u32(data, off + 96),
            r.features_read_only == le_u32(data, off + 100),
            forall|k: int| 0 <= k < 16 ==> r.uuid[k] == data[off + 104 + k],
            forall|k: int| 0 <= k < 16 ==> r.volume_name[k] == data[off + 120 + k],
            forall|k: int| 0 <= k < 64 ==> r.last_mounted[k] == data[off + 136 + k],
            r.algorithm_usage_bitmap == le_u32(data, off + 200),
            r.s_prealloc_blocks == data[off + 204],
        ensures
            forall|i: int| 82 <= i < 205 ==> #[trigger] r.spec_byte(i) == data[off + i],
    {
        assert forall|i: int| 82 <= i < 84 implies #[trigger] r.spec_byte(i) == data[off + i] by {
            reveal(Ext4Superblock::spec_byte);
            reveal(Ext4Superblock::image_part2);
            lemma_le_u16_bytes(data, off + 82);
        }
        assert forall|i: int| 84 <= i < 88 implies #[trigger] r.spec_byte(i) == data[off + i] by {
            reveal(Ext4Superblock::spec_byte);
            reveal(Ext4Superblock::image_part2);
            lemma_le_u32_bytes(data, off + 84);
        }
        assert forall|i: int| 88 <= i < 90 implies #[trigger] r.spec_byte(i) == data[off + i] by {
            reveal(Ext4Superblock::spec_byte);
            reveal(Ext4Superblock::image_part2);
            lemma_le_u16_bytes(data, off + 88);
        }
        assert forall|i: int| 90 <= i < 92 implies #[trigger] r.spec_byte(i) == data[off + i] by {
            reveal(Ext4Superblock::spec_byte);
            reveal(Ext4Superblock::image_part2);
            lemma_le_u16_bytes(data, off + 90);
        }
        assert forall|i: int| 92 <= i < 96 implies #[trigger] r.spec_byte(i) == data[off + i] by {
            reveal(Ext4Superblock::spec_byte);
            reveal(Ext4Superblock::image_part2);
            lemma_le_u32_bytes(data, off + 92);
        }
        assert forall|i: int| 96 <= i < 100 implies #[trigger] r.spec_byte(i) == data[off + i] by {
            reveal(Ext4Superblock::spec_byte);
            reveal(Ext4Superblock::image_part2);
            lemma_le_u32_bytes(data, off + 96);
        }
        assert forall|i: int| 100 <= i < 104 implies #[trigger] r.spec_byte(i) == data[off + i] by {
            reveal(Ext4Superblock::spec_byte);
            reveal(Ext4Superblock::image_part2);
            lemma_le_u32_bytes(data, off + 100);
        }
        assert forall|i: int| 104 <= i < 120 implies #[trigger] r.spec_byte(i) == data[off + i] by {
            reveal(Ext4Superblock::spec_byte);
            reveal(Ext4Superblock::image_part2);
        }
        assert forall|i: int| 120 <= i < 136 implies #[trigger] r.spec_byte(i) == data[off + i] by {
            reveal(Ext4Superblock::spec_byte);
            reveal(Ext4Superblock::image_part2);
        }
        assert forall|i: int| 136 <= i < 200 implies #[trigger] r.spec_byte(i) == data[off + i] by {
            reveal(Ext4Superblock::spec_byte);
            reveal(Ext4Superblock::image_part2);
        }
        assert forall|i: int| 200 <= i < 204 implies #[trigger] r.spec_byte(i) == data[off + i] by {
            reveal(Ext4Superblock::spec_byte);
            reveal(Ext4Superblock::image_part2);
            lemma_le_u32_bytes(data, off + 200);
        }
        assert forall|i: int| 204 <= i < 205 implies #[trigger] r.spec_byte(i) == data[off + i] by {
            reveal(Ext4Superblock::spec_byte);
            reveal(Ext4Superblock::image_part2);
        }
    }

    proof fn lemma_parse_part3(r: Self, data: Seq<u8>, off: int)
        requires
            0 <= off,
            off + 1024 <= data.len(),
            r.s_prealloc_dir_blocks == data[off + 205],
            r.s_reserved_gdt_blocks == le_u16(data, off + 206),
            forall|k: int| 0 <= k < 16 ==> r.journal_uuid[k] == data[off + 208 + k],
            r.journal_inode_number == le_u32(data, off + 224),
            r.journal_dev == le_u32(data, off + 228),
            r.last_orphan == le_u32(data, off + 232),
            forall|k: int| 0 <= k < 4 ==> r.hash_seed[k] == le_u32(data, off + 236 + 4 * k),
            r.default_hash_version == data[off + 252],
            r.journal_backup_type == data[off + 253],
            r.desc_size == le_u16(data, off + 254),
            r.default_mount_opts == le_u32(data, off + 256),
            r.first_meta_bg == le_u32(data, off + 260),
        ensures
            forall|i: int| 205 <= i < 264 ==> #[trigger] r.spec_byte(i) == data[off + i],
    {
        assert forall|i: int| 205 <= i < 206 implies #[trigger] r.spec_byte(i) == data[off + i] by {
            reveal(Ext4Superblock::spec_byte);
            reveal(Ext4Superblock::image_part3);
        }
        assert forall|i: int| 206 <= i < 208 implies #[trigger] r.spec_byte(i) == data[off + i] by {
            reveal(Ext4Superblock::spec_byte);
            reveal(Ext4Superblock::image_part3);
            lemma_le_u16_bytes(data, off + 206);
        }
        assert forall|i: int| 208 <= i < 224 implies #[trigger] r.spec_byte(i) == data[off + i] by {
            reveal(Ext4Superblock::spec_byte);
            reveal(Ext4Superblock::image_part3);
        }
        assert forall|i: int| 224 <= i < 228 implies #[trigger] r.spec_byte(i) == data[off + i] by {
            reveal(Ext4Superblock::spec_byte);
            reveal(Ext4Superblock::image_part3);
            lemma_le_u32_bytes(data, off + 224);
        }
        assert forall|i: int| 228 <= i < 232 implies #[trigger] r.spec_byte(i) == data[off + i] by {
            reveal(Ext4Superblock::spec_byte);
            reveal(Ext4Superblock::image_part3);
            lemma_le_u32_bytes(data, off + 228);
        }
        assert forall|i: int| 232 <= i < 236 implies #[trigger] r.spec_byte(i) == data[off + i] by {
            reveal(Ext4Superblock::spec_byte);
            reveal(Ext4Superblock::image_part3);
            lemma_le_u32_bytes(data, off + 232);
        }
        assert forall|i: int| 236 <= i < 252 implies #[trigger] r.spec_byte(i) == data[off + i] by {
            reveal(Ext4Superblock::spec_byte);
            reveal(Ext4Superblock::image_part3);
            lemma_le_u32_bytes(data, off + 236 + 4 * ((i - 236) / 4));
        }
        assert forall|i: int| 252 <= i < 253 implies #[trigger] r.spec_byte(i) == data[off + i] by {
            reveal(Ext4Superblock::spec_byte);
            reveal(Ext4Superblock::image_part3);
        }
        assert forall|i: int| 253 <= i < 254 implies #[trigger] r.spec_byte(i) == data[off + i] by {
            reveal(Ext4Superblock::spec_byte);
            reveal(Ext4Superblock::image_part3);
        }
        assert forall|i: int| 254 <= i < 256 implies #[trigger] r.spec_byte(i) == data[off + i] by {
            reveal(Ext4Superblock::spec_byte);
            reveal(Ext4Superblock::image_part3);
            lemma_le_u16_bytes(data, off + 254);
        }
        assert forall|i: int| 256 <= i < 260 implies #[trigger] r.spec_byte(i) == data[off + i] by {
            reveal(Ext4Superblock::spec_byte);
            reveal(Ext4Superblock::image_part3);
            lemma_le_u32_bytes(data, off + 256);
        }
        assert forall|i: int| 260 <= i < 264 implies #[trigger] r.spec_byte(i) == data[off + i] by {
            reveal(Ext4Superblock::spec_byte);
            reveal(Ext4Superblock::image_part3);
            lemma_le_u32_bytes(data, off + 260);
        }
    }

    proof fn lemma_parse_part4(r: Self, data: Seq<u8>, off: int)
        requires
            0 <= off,
            off + 1024 <= data.len(),
            r.mkfs_time == le_u32(data, off + 264),
            forall|k: int| 0 <= k < 17 ==> r.journal_blocks[k] == le_u32(data, off + 268 + 4 * k),
            r.blocks_count_hi == le_u32(data, off + 336),
            r.reserved_blocks_count_hi == le_u32(data, off + 340),
            r.free_blocks_count_hi == le_u32(data, off + 344),
            r.min_extra_isize == le_u16(data, off + 348),
            r.want_extra_isize == le_u16(data, off + 350),
            r.flags == le_u32(data, off + 352),
            r.raid_stride == le_u16(data, off + 356),
            r.mmp_interval == le_u16(data, off + 358),
            r.mmp_block == le_u64(data, off + 360),
            r.raid_stripe_width == le_u32(data, off + 368),
        ensures
            forall|i: int| 264 <= i < 372 ==> #[trigger] r.spec_byte(i) == data[off + i],
    {
        assert forall|i: int| 264 <= i < 268 implies #[trigger] r.spec_byte(i) == data[off + i] by {
            reveal(Ext4Superblock::spec_byte);
            reveal(Ext4Superblock::image_part4);
            lemma_le_u32_bytes(data, off + 264);
        }
        assert forall|i: int| 268 <= i < 336 implies #[trigger] r.spec_byte(i) == data[off + i] by {
            reveal(Ext4Superblock::spec_byte);
            reveal(Ext4Superblock::image_part4);
            lemma_le_u32_bytes(data, off + 268 + 4 * ((i - 268) / 4));
        }
        assert forall|i: int| 336 <= i < 340 implies #[trigger] r.spec_byte(i) == data[off + i] by {
            reveal(Ext4Superblock::spec_byte);
            reveal(Ext4Superblock::image_part4);
            lemma_le_u32_bytes(data, off + 336);
        }
        assert forall|i: int| 340 <= i < 344 implies #[trigger] r.spec_byte(i) == data[off + i] by {
            reveal(Ext4Superblock::spec_byte);
            reveal(Ext4Superblock::image_part4);
            lemma_le_u32_bytes(data, off + 340);
        }
        assert forall|i: int| 344 <= i < 348 implies #[trigger] r.spec_byte(i) == data[off + i] by {
            reveal(Ext4Superblock::spec_byte);
            reveal(Ext4Superblock::image_part4);
            lemma_le_u32_bytes(data, off + 344);
        }
        assert forall|i: int| 348 <= i < 350 implies #[trigger] r.spec_byte(i) == data[off + i] by {
            reveal(Ext4Superblock::spec_byte);
            reveal(Ext4Superblock::image_part4);
            lemma_le_u16_bytes(data, off + 348);
        }
        assert forall|i: int| 350 <= i < 352 implies #[trigger] r.spec_byte(i) == data[off + i] by {
            reveal(Ext4Superblock::spec_byte);
            reveal(Ext4Superblock::image_part4);
            lemma_le_u16_bytes(data, off + 350);
        }
        assert forall|i: int| 352 <= i < 356 implies #[trigger] r.spec_byte(i) == data[off + i] by {
            reveal(Ext4Superblock::spec_byte);
            reveal(Ext4Superblock::image_part4);
            lemma_le_u32_bytes(data, off + 352);
        }
        assert forall|i: int| 356 <= i < 358 implies #[trigger] r.spec_byte(i) == data[off + i] by {
            reveal(Ext4Superblock::spec_byte);
            reveal(Ext4Superblock::image_part4);
            lemma_le_u16_bytes(data, off + 356);
        }
        assert forall|i: int| 358 <= i < 360 implies #[trigger] r.spec_byte(i) == data[off + i] by {
            reveal(Ext4Superblock::spec_byte);
            reveal(Ext4Superblock::image_part4);
            lemma_le_u16_bytes(data, off + 358);
        }
        assert forall|i: int| 360 <= i < 368 implies #[trigger] r.spec_byte(i) == data[off + i] by {
            reveal(Ext4Superblock::spec_byte);
            reveal(Ext4Superblock::image_part4);
            lemma_le_u64_bytes(data, off + 360);
        }
        assert forall|i: int| 368 <= i < 372 implies #[trigger] r.spec_byte(i) == data[off + i] by {
            reveal(Ext4Superblock::spec_byte);
            reveal(Ext4Superblock::image_part4);
            lemma_le_u32_bytes(data, off + 368);
        }
    }

    proof fn lemma_parse_part5(r: Self, data: Seq<u8>, off: int)
        requires
            0 <= off,
            off + 1024 <= data.len(),
            r.log_groups_per_flex == data[off + 372],
            r.checksum_type == data[off + 373],
            r.reserved_pad == le_u16(data, off + 374),
            r.kbytes_written == le_u64(data, off + 376),
            r.snapshot_inum == le_u32(data, off + 384),
            r.snapshot_id == le_u32(data, off + 388),
            r.snapshot_r_blocks_count == le_u64(data, off + 392),
            r.snapshot_list == le_u32(data, off + 400),
            r.error_count == le_u32(data, off + 404),
            r.first_error_time == le_u32(data, off + 408),
            r.first_error_ino == le_u32(data, off + 412),
            r.first_error_block == le_u64(data, off + 416),
        ensures
            forall|i: int| 372 <= i < 424 ==> #[trigger] r.spec_byte(i) == data[off + i],
    {
        assert forall|i: int| 372 <= i < 373 implies #[trigger] r.spec_byte(i) == data[off + i] by {
            reveal(Ext4Superblock::spec_byte);
            reveal(Ext4Superblock::image_part5);
        }
        assert forall|i: int| 373 <= i < 374 implies #[trigger] r.spec_byte(i) == data[off + i] by {
            reveal(Ext4Superblock::spec_byte);
            reveal(Ext4Superblock::image_part5);
        }
        assert forall|i: int| 374 <= i < 376 implies #[trigger] r.spec_byte(i) == data[off + i] by {
            reveal(Ext4Superblock::spec_byte);
            reveal(Ext4Superblock::image_part5);
            lemma_le_u16_bytes(data, off + 374);
        }
        assert forall|i: int| 376 <= i < 384 implies #[trigger] r.spec_byte(i) == data[off + i] by {
            reveal(Ext4Superblock::spec_byte);
            reveal(Ext4Superblock::image_part5);
            lemma_le_u64_bytes(data, off + 376);
        }
        assert forall|i: int| 384 <= i < 388 implies #[trigger] r.spec_byte(i) == data[off + i] by {
            reveal(Ext4Superblock::spec_byte);
            reveal(Ext4Superblock::image_part5);
            lemma_le_u32_bytes(data, off + 384);
        }
        assert forall|i: int| 388 <= i < 392 implies #[trigger] r.spec_byte(i) == data[off + i] by {
            reveal(Ext4Superblock::spec_byte);
            reveal(Ext4Superblock::image_part5);
            lemma_le_u32_bytes(data, off + 388);
        }
        assert forall|i: int| 392 <= i < 400 implies #[trigger] r.spec_byte(i) == data[off + i] by {
            reveal(Ext4Superblock::spec_byte);
            reveal(Ext4Superblock::image_part5);
            lemma_le_u64_bytes(data, off + 392);
        }
        assert forall|i: int| 400 <= i < 404 implies #[trigger] r.spec_byte(i) == data[off + i] by {
            reveal(Ext4Superblock::spec_byte);
            reveal(Ext4Superblock::image_part5);
            lemma_le_u32_bytes(data, off + 400);
        }
        assert forall|i: int| 404 <= i < 408 implies #[trigger] r.spec_byte(i) == data[off + i] by {
            reveal(Ext4Superblock::spec_byte);
            reveal(Ext4Superblock::image_part5);
            lemma_le_u32_bytes(data, off + 404);
        }
        assert forall|i: int| 408 <= i < 412 implies #[trigger] r.spec_byte(i) == data[off + i] by {
            reveal(Ext4Superblock::spec_byte);
            reveal(Ext4Superblock::image_part5);
            lemma_le_u32_bytes(data, off + 408);
        }
        assert forall|i: int| 412 <= i < 416 implies #[trigger] r.spec_byte(i) == data[off + i] by {
            reveal(Ext4Superblock::spec_byte);
            reveal(Ext4Superblock::image_part5);
            lemma_le_u32_bytes(data, off + 412);
        }
        assert forall|i: int| 416 <= i < 424 implies #[trigger] r.spec_byte(i) == data[off + i] by {
            reveal(Ext4Superblock::spec_byte);
            reveal(Ext4Superblock::image_part5);
            lemma_le_u64_bytes(data, off + 416);
        }
    }

    proof fn lemma_parse_part6(r: Self, data: Seq<u8>, off: int)
        requires
            0 <= off,
            off + 1024 <= data.len(),
            forall|k: int| 0 <= k < 32 ==> r.first_error_func[k] == data[off + 424 + k],
            r.first_error_line == le_u32(data, off + 456),
            r.last_error_time == le_u32(data, off + 460),
            r.last_error_ino == le_u32(data, off + 464),
            r.last_error_line == le_u32(data, off + 468),
            r.last_error_block == le_u64(data, off + 472),
            forall|k: int| 0 <= k < 32 ==> r.last_error_func[k] == data[off + 480 + k],
            forall|k: int| 0 <= k < 64 ==> r.mount_opts[k] == data[off + 512 + k],
            r.usr_quota_inum == le_u32(data, off + 576),
            r.grp_quota_inum == le_u32(data, off + 580),
            r.overhead_clusters == le_u32(data, off + 584),
            forall|k: int| 0 <= k < 2 ==> r.backup_bgs[k] == le_u32(data, off + 588 + 4 * k),
        ensures
            forall|i: int| 424 <= i < 596 ==> #[trigger] r.spec_byte(i) == data[off + i],
    {
        assert forall|i: int| 424 <= i < 456 implies #[trigger] r.spec_byte(i) == data[off + i] by {
            reveal(Ext4Superblock::spec_byte);
            reveal(Ext4Superblock::image_part6);
        }
        assert forall|i: int| 456 <= i < 460 implies #[trigger] r.spec_byte(i) == data[off + i] by {
            reveal(Ext4Superblock::spec_byte);
            reveal(Ext4Superblock::image_part6);
            lemma_le_u32_bytes(data, off + 456);
        }
        assert forall|i: int| 460 <= i < 464 implies #[trigger] r.spec_byte(i) == data[off + i] by {
            reveal(Ext4Superblock::spec_byte);
            reveal(Ext4Superblock::image_part6);
            lemma_le_u32_bytes(data, off + 460);
        }
        assert forall|i: int| 464 <= i < 468 implies #[trigger] r.spec_byte(i) == data[off + i] by {
            reveal(Ext4Superblock::spec_byte);
            reveal(Ext4Superblock::image_part6);
            lemma_le_u32_bytes(data, off + 464);
        }
        assert forall|i: int| 468 <= i < 472 implies #[trigger] r.spec_byte(i) == data[off + i] by {
            reveal(Ext4Superblock::spec_byte);
            reveal(Ext4Superblock::image_part6);
            lemma_le_u32_bytes(data, off + 468);
        }
        assert forall|i: int| 472 <= i < 480 implies #[trigger] r.spec_byte(i) == data[off + i] by {
            reveal(Ext4Superblock::spec_byte);
            reveal(Ext4Superblock::image_part6);
            lemma_le_u64_bytes(data, off + 472);
        }
        assert forall|i: int| 480 <= i < 512 implies #[trigger] r.spec_byte(i) == data[off + i] by {
            reveal(Ext4Superblock::spec_byte);
            reveal(Ext4Superblock::image_part6);
        }
        assert forall|i: int| 512 <= i < 576 implies #[trigger] r.spec_byte(i) == data[off + i] by {
            reveal(Ext4Superblock::spec_byte);
            reveal(Ext4Superblock::image_part6);
        }
        assert forall|i: int| 576 <= i < 580 implies #[trigger] r.spec_byte(i) == data[off + i] by {
            reveal(Ext4Superblock::spec_byte);
            reveal(Ext4Superblock::image_part6);
            lemma_le_u32_bytes(data, off + 576);
        }
        assert forall|i: int| 580 <= i < 584 implies #[trigger] r.spec_byte(i) == data[off + i] by {
            reveal(Ext4Superblock::spec_byte);
            reveal(Ext4Superblock::image_part6);
            lemma_le_u32_bytes(data, off + 580);
        }
        assert forall|i: int| 584 <= i < 588 implies #[trigger] r.spec_byte(i) == data[off + i] by {
            reveal(Ext4Superblock::spec_byte);
            reveal(Ext4Superblock::image_part6);
            lemma_le_u32_bytes(data, off + 584);
        }
        assert forall|i: int| 588 <= i < 596 implies #[trigger] r.spec_byte(i) == data[off + i] by {
            reveal(Ext4Superblock::spec_byte);
            reveal(Ext4Superblock::image_part6);
            lemma_le_u32_bytes(data, off + 588 + 4 * ((i - 588) / 4));
        }
    }

    proof fn lemma_parse_part7(r: Self, data: Seq<u8>, off: int)
        requires
            0 <= off,
            off + 1024 <= data.len(),
            forall|k: int| 0 <= k < 4 ==> r.encrypt_algos[k] == data[off + 596 + k],
            forall|k: int| 0 <= k < 16 ==> r.encrypt_pw_salt[k] == data[off + 600 + k],
            r.lpf_ino == le_u32(data, off + 616),
            forall|k: int| 0 <= k < 100 ==> r.padding[k] == le_u32(data, off + 620 + 4 * k),
            r.checksum == le_u32(data, off + 1020),
        ensures
            forall|i: int| 596 <= i < 1024 ==> #[trigger] r.spec_byte(i) == data[off + i],
    {
        assert forall|i: int| 596 <= i < 600 implies #[trigger] r.spec_byte(i) == data[off + i] by {
            reveal(Ext4Superblock::spec_byte);
            reveal(Ext4Superblock::image_part7);
        }
        assert forall|i: int| 600 <= i < 616 implies #[trigger] r.spec_byte(i) == data[off + i] by {
            reveal(Ext4Superblock::spec_byte);
            reveal(Ext4Superblock::image_part7);
        }
        assert forall|i: int| 616 <= i < 620 implies #[trigger] r.spec_byte(i) == data[off + i] by {
            reveal(Ext4Superblock::spec_byte);
            reveal(Ext4Superblock::image_part7);
            lemma_le_u32_bytes(data, off + 616);
        }
        assert forall|i: int| 620 <= i < 1020 implies #[trigger] r.spec_byte(i) == data[off + i] by {
            reveal(Ext4Superblock::spec_byte);
            reveal(Ext4Superblock::image_part7);
            lemma_le_u32_bytes(data, off + 620 + 4 * ((i - 620) / 4));
        }
        assert forall|i: int| 1020 <= i < 1024 implies #[trigger] r.spec_byte(i) == data[off + i] by {
            reveal(Ext4Superblock::spec_byte);
            reveal(Ext4Superblock::image_part7);
            lemma_le_u32_bytes(data, off + 1020);
        }
    }

    proof fn lemma_injective_part0(a: Self, b: Self)
        requires
            a.spec_to_bytes() == b.spec_to_bytes(),
        ensures
            a.inodes_count == b.inodes_count,
            a.blocks_count_lo == b.blocks_count_lo,
            a.reserved_blocks_count_lo == b.reserved_blocks_count_lo,
            a.free_blocks_count_lo == b.free_blocks_count_lo,
            a.free_inodes_count == b.free_inodes_count,
            a.first_data_block == b.first_data_block,
            a.log_block_size == b.log_block_size,
            a.log_cluster_size == b.log_cluster_size,
            a.blocks_per_group == b.blocks_per_group,
            a.frags_per_group == b.frags_per_group,
            a.inodes_per_group == b.inodes_per_group,
            a.mount_time == b.mount_time,
    {
        Ext4Superblock::lemma_same_image_bytes(a, b);
        assert forall|k: int| 0 <= k < 4 implies #[trigger] u32_byte(a.inodes_count, k) == u32_byte(b.inodes_count, k) by {
            reveal(Ext4Superblock::spec_byte);
            reveal(Ext4Superblock::image_part0);
            assert(a.spec_byte(k) == b.spec_byte(k));
        }
        lemma_u32_bytes_injective(a.inodes_count, b.inodes_count);
        assert forall|k: int| 0 <= k < 4 implies #[trigger] u32_byte(a.blocks_count_lo, k) == u32_byte(b.blocks_count_lo, k) by {
            reveal(Ext4Superblock::spec_byte);
            reveal(Ext4Superblock::image_part0);
            assert(a.spec_byte(4 + k) == b.spec_byte(4 + k));
        }
        lemma_u32_bytes_injective(a.blocks_count_lo, b.blocks_count_lo);
        assert forall|k: int| 0 <= k < 4 implies #[trigger] u32_byte(a.reserved_blocks_count_lo, k) == u32_byte(b.reserved_blocks_count_lo, k) by {
            reveal(Ext4Superblock::spec_byte);
            reveal(Ext4Superblock::image_part0);
            assert(a.spec_byte(8 + k) == b.spec_byte(8 + k));
        }
        lemma_u32_bytes_injective(a.reserved_blocks_count_lo, b.reserved_blocks_count_lo);
        assert forall|k: int| 0 <= k < 4 implies #[trigger] u32_byte(a.free_blocks_count_lo, k) == u32_byte(b.free_blocks_count_lo, k) by {
            reveal(Ext4Superblock::spec_byte);
            reveal(Ext4Superblock::image_part0);
            assert(a.spec_byte(12 + k) == b.spec_byte(12 + k));
        }
        lemma_u32_bytes_injective(a.free_blocks_count_lo, b.free_blocks_count_lo);
        assert forall|k: int| 0 <= k < 4 implies #[trigger] u32_byte(a.free_inodes_count, k) == u32_byte(b.free_inodes_count, k) by {
            reveal(Ext4Superblock::spec_byte);
            reveal(Ext4Superblock::image_part0);
            assert(a.spec_byte(16 + k) == b.spec_byte(16 + k));
        }
        lemma_u32_bytes_injective(a.free_inodes_count, b.free_inodes_count);
        assert forall|k: int| 0 <= k < 4 implies #[trigger] u32_byte(a.first_data_block, k) == u32_byte(b.first_data_block, k) by {
            reveal(Ext4Superblock::spec_byte);
            reveal(Ext4Superblock::image_part0);
            assert(a.spec_byte(20 + k) == b.spec_byte(20 + k));
        }
        lemma_u32_bytes_injective(a.first_data_block, b.first_data_block);
        assert forall|k: int| 0 <= k < 4 implies #[trigger] u32_byte(a.log_block_size, k) == u32_byte(b.log_block_size, k) by {
            reveal(Ext4Superblock::spec_byte);
            reveal(Ext4Superblock::image_part0);
            assert(a.spec_byte(24 + k) == b.spec_byte(24 + k));
        }
        lemma_u32_bytes_injective(a.log_block_size, b.log_block_size);
        assert forall|k: int| 0 <= k < 4 implies #[trigger] u32_byte(a.log_cluster_size, k) == u32_byte(b.log_cluster_size, k) by {
            reveal(Ext4Superblock::spec_byte);
            reveal(Ext4Superblock::image_part0);
            assert(a.spec_byte(28 + k) == b.spec_byte(28 + k));
        }
        lemma_u32_bytes_injective(a.log_cluster_size, b.log_cluster_size);
        assert forall|k: int| 0 <= k < 4 implies #[trigger] u32_byte(a.blocks_per_group, k) == u32_byte(b.blocks_per_group, k) by {
            reveal(Ext4Superblock::spec_byte);
            reveal(Ext4Superblock::image_part0);
            assert(a.spec_byte(32 + k) == b.spec_byte(32 + k));
        }
        lemma_u32_bytes_injective(a.blocks_per_group, b.blocks_per_group);
        assert forall|k: int| 0 <= k < 4 implies #[trigger] u32_byte(a.frags_per_group, k) == u32_byte(b.frags_per_group, k) by {
            reveal(Ext4Superblock::spec_byte);
            reveal(Ext4Superblock::image_part0);
            assert(a.spec_byte(36 + k) == b.spec_byte(36 + k));
        }
        lemma_u32_bytes_injective(a.frags_per_group, b.frags_per_group);
        assert forall|k: int| 0 <= k < 4 implies #[trigger] u32_byte(a.inodes_per_group, k) == u32_byte(b.inodes_per_group, k) by {
            reveal(Ext4Superblock::spec_byte);
            reveal(Ext4Superblock::image_part0);
            assert(a.spec_byte(40 + k) == b.spec_byte(40 + k));
        }
        lemma_u32_bytes_injective(a.inodes_per_group, b.inodes_per_group);
        assert forall|k: int| 0 <= k < 4 implies #[trigger] u32_byte(a.mount_time, k) == u32_byte(b.mount_time, k) by {
            reveal(Ext4Superblock::spec_byte);
            reveal(Ext4Superblock::image_part0);
            assert(a.spec_byte(44 + k) == b.spec_byte(44 + k));
        }
        lemma_u32_bytes_injective(a.mount_time, b.mount_time);
    }

    proof fn lemma_injective_part1(a: Self, b: Self)
        requires
            a.spec_to_bytes() == b.spec_to_bytes(),
        ensures
            a.write_time == b.write_time,
            a.mount_count == b.mount_count,
            a.max_mount_count == b.max_mount_count,
            a.magic == b.magic,
            a.state == b.state,
            a.errors == b.errors,
            a.minor_rev_level == b.minor_rev_level,
            a.last_check_time == b.last_check_time,
            a.check_interval == b.check_interval,
            a.creator_os == b.creator_os,
            a.rev_level == b.rev_level,
            a.def_resuid == b.def_resuid,
    {
        Ext4Superblock::lemma_same_image_bytes(a, b);
        assert forall|k: int| 0 <= k < 4 implies #[trigger] u32_byte(a.write_time, k) == u32_byte(b.write_time, k) by {
            reveal(Ext4Superblock::spec_byte);
            reveal(Ext4Superblock::image_part1);
            assert(a.spec_byte(48 + k) == b.spec_byte(48 + k));
        }
        lemma_u32_bytes_injective(a.write_time, b.write_time);
        assert forall|k: int| 0 <= k < 2 implies #[trigger] u16_byte(a.mount_count, k) == u16_byte(b.mount_count, k) by {
            reveal(Ext4Superblock::spec_byte);
            reveal(Ext4Superblock::image_part1);
            assert(a.spec_byte(52 + k) == b.spec_byte(52 + k));
        }
        lemma_u16_bytes_injective(a.mount_count, b.mount_count);
        assert forall|k: int| 0 <= k < 2 implies #[trigger] u16_byte(a.max_mount_count, k) == u16_byte(b.max_mount_count, k) by {
            reveal(Ext4Superblock::spec_byte);
            reveal(Ext4Superblock::image_part1);
            assert(a.spec_byte(54 + k) == b.spec_byte(54 + k));
        }
        lemma_u16_bytes_injective(a.max_mount_count, b.max_mount_count);
        assert forall|k: int| 0 <= k < 2 implies #[trigger] u16_byte(a.magic, k) == u16_byte(b.magic, k) by {
            reveal(Ext4Superblock::spec_byte);
            reveal(Ext4Superblock::image_part1);
            assert(a.spec_byte(56 + k) == b.spec_byte(56 + k));
        }
        lemma_u16_bytes_injective(a.magic, b.magic);
        assert forall|k: int| 0 <= k < 2 implies #[trigger] u16_byte(a.state, k) == u16_byte(b.state, k) by {
            reveal(Ext4Superblock::spec_byte);
            reveal(Ext4Superblock::image_part1);
            assert(a.spec_byte(58 + k) == b.spec_byte(58 + k));
        }
        lemma_u16_bytes_injective(a.state, b.state);
        assert forall|k: int| 0 <= k < 2 implies #[trigger] u16_byte(a.errors, k) == u16_byte(b.errors, k) by {
            reveal(Ext4Superblock::spec_byte);
            reveal(Ext4Superblock::image_part1);
            assert(a.spec_byte(60 + k) == b.spec_byte(60 + k));
        }
        lemma_u16_bytes_injective(a.errors, b.errors);
        assert forall|k: int| 0 <= k < 2 implies #[trigger] u16_byte(a.minor_rev_level, k) == u16_byte(b.minor_rev_level, k) by {
            reveal(Ext4Superblock::spec_byte);
            reveal(Ext4Superblock::image_part1);
            assert(a.spec_byte(62 + k) == b.spec_byte(62 + k));
        }
        lemma_u16_bytes_injective(a.minor_rev_level, b.minor_rev_level);
        assert forall|k: int| 0 <= k < 4 implies #[trigger] u32_byte(a.last_check_time, k) == u32_byte(b.last_check_time, k) by {
            reveal(Ext4Superblock::spec_byte);
            reveal(Ext4Superblock::image_part1);
            assert(a.spec_byte(64 + k) == b.spec_byte(64 + k));
        }
        lemma_u32_bytes_injective(a.last_check_time, b.last_check_time);
        assert forall|k: int| 0 <= k < 4 implies #[trigger] u32_byte(a.check_interval, k) == u32_byte(b.check_interval, k) by {
            reveal(Ext4Superblock::spec_byte);
            reveal(Ext4Superblock::image_part1);
            assert(a.spec_byte(68 + k) == b.spec_byte(68 + k));
        }
        lemma_u32_bytes_injective(a.check_interval, b.check_interval);
        assert forall|k: int| 0 <= k < 4 implies #[trigger] u32_byte(a.creator_os, k) == u32_byte(b.creator_os, k) by {
            reveal(Ext4Superblock::spec_byte);
            reveal(Ext4Superblock::image_part1);
            assert(a.spec_byte(72 + k) == b.spec_byte(72 + k));
        }
        lemma_u32_bytes_injective(a.creator_os, b.creator_os);
        assert forall|k: int| 0 <= k < 4 implies #[trigger] u32_byte(a.rev_level, k) == u32_byte(b.rev_level, k) by {
            reveal(Ext4Superblock::spec_byte);
            reveal(Ext4Superblock::image_part1);
            assert(a.spec_byte(76 + k) == b.spec_byte(76 + k));
        }
        lemma_u32_bytes_injective(a.rev_level, b.rev_level);
        assert forall|k: int| 0 <= k < 2 implies #[trigger] u16_byte(a.def_resuid, k) == u16_byte(b.def_resuid, k) by {
            reveal(Ext4Superblock::spec_byte);
            reveal(Ext4Superblock::image_part1);
            assert(a.spec_byte(80 + k) == b.spec_byte(80 + k));
        }
        lemma_u16_bytes_injective(a.def_resuid, b.def_resuid);
    }

    proof fn lemma_injective_part2(a: Self, b: Self)
        requires
            a.spec_to_bytes() == b.spec_to_bytes(),
        ensures
            a.def_resgid == b.def_resgid,
            a.first_inode == b.first_inode,
            a.inode_size == b.inode_size,
            a.block_group_index == b.block_group_index,
            a.features_compatible == b.features_compatible,
            a.features_incompatible == b.features_incompatible,
            a.features_read_only == b.features_read_only,
            a.uuid == b.uuid,
            a.volume_name == b.volume_name,
            a.last_mounted == b.last_mounted,
            a.algorithm_usage_bitmap == b.algorithm_usage_bitmap,
            a.s_prealloc_blocks == b.s_prealloc_blocks,
    {
        Ext4Superblock::lemma_same_image_bytes(a, b);
        assert forall|k: int| 0 <= k < 2 implies #[trigger] u16_byte(a.def_resgid, k) == u16_byte(b.def_resgid, k) by {
            reveal(Ext4Superblock::spec_byte);
            reveal(Ext4Superblock::image_part2);
            assert(a.spec_byte(82 + k) == b.spec_byte(82 + k));
        }
        lemma_u16_bytes_injective(a.def_resgid, b.def_resgid);
        assert forall|k: int| 0 <= k < 4 implies #[trigger] u32_byte(a.first_inode, k) == u32_byte(b.first_inode, k) by {
            reveal(Ext4Superblock::spec_byte);
            reveal(Ext4Superblock::image_part2);
            assert(a.spec_byte(84 + k) == b.spec_byte(84 + k));
        }
        lemma_u32_bytes_injective(a.first_inode, b.first_inode);
        assert forall|k: int| 0 <= k < 2 implies #[trigger] u16_byte(a.inode_size, k) == u16_byte(b.inode_size, k) by {
            reveal(Ext4Superblock::spec_byte);
            reveal(Ext4Superblock::image_part2);
            assert(a.spec_byte(88 + k) == b.spec_byte(88 + k));
        }
        lemma_u16_bytes_injective(a.inode_size, b.inode_size);
        assert forall|k: int| 0 <= k < 2 implies #[trigger] u16_byte(a.block_group_index, k) == u16_byte(b.block_group_index, k) by {
            reveal(Ext4Superblock::spec_byte);
            reveal(Ext4Superblock::image_part2);
            assert(a.spec_byte(90 + k) == b.spec_byte(90 + k));
        }
        lemma_u16_bytes_injective(a.block_group_index, b.block_group_index);
        assert forall|k: int| 0 <= k < 4 implies #[trigger] u32_byte(a.features_compatible, k) == u32_byte(b.features_compatible, k) by {
            reveal(Ext4Superblock::spec_byte);
            reveal(Ext4Superblock::image_part2);
            assert(a.spec_byte(92 + k) == b.spec_byte(92 + k));
        }
        lemma_u32_bytes_injective(a.features_compatible, b.features_compatible);
        assert forall|k: int| 0 <= k < 4 implies #[trigger] u32_byte(a.features_incompatible, k) == u32_byte(b.features_incompatible, k) by {
            reveal(Ext4Superblock::spec_byte);
            reveal(Ext4Superblock::image_part2);
            assert(a.spec_byte(96 + k) == b.spec_byte(96 + k));
        }
        lemma_u32_bytes_injective(a.features_incompatible, b.features_incompatible);
        assert forall|k: int| 0 <= k < 4 implies #[trigger] u32_byte(a.features_read_only, k) == u32_byte(b.features_read_only, k) by {
            reveal(Ext4Superblock::spec_byte);
            reveal(Ext4Superblock::image_part2);
            assert(a.spec_byte(100 + k) == b.spec_byte(100 + k));
        }
        lemma_u32_bytes_injective(a.features_read_only, b.features_read_only);
        assert forall|k: int| 0 <= k < 16 implies a.uuid[k] == b.uuid[k] by {
            reveal(Ext4Superblock::spec_byte);
            reveal(Ext4Superblock::image_part2);
            assert(a.spec_byte(104 + k) == b.spec_byte(104 + k));
        }
        assert(a.uuid =~= b.uuid);
        assert forall|k: int| 0 <= k < 16 implies a.volume_name[k] == b.volume_name[k] by {
            reveal(Ext4Superblock::spec_byte);
            reveal(Ext4Superblock::image_part2);
            assert(a.spec_byte(120 + k) == b.spec_byte(120 + k));
        }
        assert(a.volume_name =~= b.volume_name);
        assert forall|k: int| 0 <= k < 64 implies a.last_mounted[k] == b.last_mounted[k] by {
            reveal(Ext4Superblock::spec_byte);
            reveal(Ext4Superblock::image_part2);
            assert(a.spec_byte(136 + k) == b.spec_byte(136 + k));
        }
        assert(a.last_mounted =~= b.last_mounted);
        assert forall|k: int| 0 <= k < 4 implies #[trigger] u32_byte(a.algorithm_usage_bitmap, k) == u32_byte(b.algorithm_usage_bitmap, k) by {
            reveal(Ext4Superblock::spec_byte);
            reveal(Ext4Superblock::image_part2);
            assert(a.spec_byte(200 + k) == b.spec_byte(200 + k));
        }
        lemma_u32_bytes_injective(a.algorithm_usage_bitmap, b.algorithm_usage_bitmap);
        assert(a.s_prealloc_blocks == b.s_prealloc_blocks) by {
            reveal(Ext4Superblock::spec_byte);
            reveal(Ext4Superblock::image_part2);
            assert(a.spec_byte(204) == b.spec_byte(204));
        }
    }

    proof fn lemma_injective_part3(a: Self, b: Self)
        requires
            a.spec_to_bytes() == b.spec_to_bytes(),
        ensures
            a.s_prealloc_dir_blocks == b.s_prealloc_dir_blocks,
            a.s_reserved_gdt_blocks == b.s_reserved_gdt_blocks,
            a.journal_uuid == b.journal_uuid,
            a.journal_inode_number == b.journal_inode_number,
            a.journal_dev == b.journal_dev,
            a.last_orphan == b.last_orphan,
            a.hash_seed == b.hash_seed,
            a.default_hash_version == b.default_hash_version,
            a.journal_backup_type == b.journal_backup_type,
            a.desc_size == b.desc_size,
            a.default_mount_opts == b.default_mount_opts,
            a.first_meta_bg == b.first_meta_bg,
    {
        Ext4Superblock::lemma_same_image_bytes(a, b);
        assert(a.s_prealloc_dir_blocks == b.s_prealloc_dir_blocks) by {
            reveal(Ext4Superblock::spec_byte);
            reveal(Ext4Superblock::image_part3);
            assert(a.spec_byte(205) == b.spec_byte(205));
        }
        assert forall|k: int| 0 <= k < 2 implies #[trigger] u16_byte(a.s_reserved_gdt_blocks, k) == u16_byte(b.s_reserved_gdt_blocks, k) by {
            reveal(Ext4Superblock::spec_byte);
            reveal(Ext4Superblock::image_part3);
            assert(a.spec_byte(206 + k) == b.spec_byte(206 + k));
        }
        lemma_u16_bytes_injective(a.s_reserved_gdt_blocks, b.s_reserved_gdt_blocks);
        assert forall|k: int| 0 <= k < 16 implies a.journal_uuid[k] == b.journal_uuid[k] by {
            reveal(Ext4Superblock::spec_byte);
            reveal(Ext4Superblock::image_part3);
            assert(a.spec_byte(208 + k) == b.spec_byte(208 + k));
        }
        assert(a.journal_uuid =~= b.journal_uuid);
        assert forall|k: int| 0 <= k < 4 implies #[trigger] u32_byte(a.journal_inode_number, k) == u32_byte(b.journal_inode_number, k) by {
            reveal(Ext4Superblock::spec_byte);
            reveal(Ext4Superblock::image_part3);
            assert(a.spec_byte(224 + k) == b.spec_byte(224 + k));
        }
        lemma_u32_bytes_injective(a.journal_inode_number, b.journal_inode_number);
        assert forall|k: int| 0 <= k < 4 implies #[trigger] u32_byte(a.journal_dev, k) == u32_byte(b.journal_dev, k) by {
            reveal(Ext4Superblock::spec_byte);
            reveal(Ext4Superblock::image_part3);
            assert(a.spec_byte(228 + k) == b.spec_byte(228 + k));
        }
        lemma_u32_bytes_injective(a.journal_dev, b.journal_dev);
        assert forall|k: int| 0 <= k < 4 implies #[trigger] u32_byte(a.last_orphan, k) == u32_byte(b.last_orphan, k) by {
            reveal(Ext4Superblock::spec_byte);
            reveal(Ext4Superblock::image_part3);
            assert(a.spec_byte(232 + k) == b.spec_byte(232 + k));
        }
        lemma_u32_bytes_injective(a.last_orphan, b.last_orphan);
        assert forall|j: int| 0 <= j < 4 implies a.hash_seed[j] == b.hash_seed[j] by {
            assert forall|k: int| 0 <= k < 4 implies #[trigger] u32_byte(a.hash_seed[j], k) == u32_byte(b.hash_seed[j], k) by {
                reveal(Ext4Superblock::spec_byte);
                reveal(Ext4Superblock::image_part3);
                assert(a.spec_byte(236 + 4 * j + k) == b.spec_byte(236 + 4 * j + k));
            }
            lemma_u32_bytes_injective(a.hash_seed[j], b.hash_seed[j]);
        }
        assert(a.hash_seed =~= b.hash_seed);
        assert(a.default_hash_version == b.default_hash_version) by {
            reveal(Ext4Superblock::spec_byte);
            reveal(Ext4Superblock::image_part3);
            assert(a.spec_byte(252) == b.spec_byte(252));
        }
        assert(a.journal_backup_type == b.journal_backup_type) by {
            reveal(Ext4Superblock::spec_byte);
            reveal(Ext4Superblock::image_part3);
            assert(a.spec_byte(253) == b.spec_byte(253));
        }
        assert forall|k: int| 0 <= k < 2 implies #[trigger] u16_byte(a.desc_size, k) == u16_byte(b.desc_size, k) by {
            reveal(Ext4Superblock::spec_byte);
            reveal(Ext4Superblock::image_part3);
            assert(a.spec_byte(254 + k) == b.spec_byte(254 + k));
        }
        lemma_u16_bytes_injective(a.desc_size, b.desc_size);
        assert forall|k: int| 0 <= k < 4 implies #[trigger] u32_byte(a.default_mount_opts, k) == u32_byte(b.default_mount_opts, k) by {
            reveal(Ext4Superblock::spec_byte);
            reveal(Ext4Superblock::image_part3);
            assert(a.spec_byte(256 + k) == b.spec_byte(256 + k));
        }
        lemma_u32_bytes_injective(a.default_mount_opts, b.default_mount_opts);
        assert forall|k: int| 0 <= k < 4 implies #[trigger] u32_byte(a.first_meta_bg, k) == u32_byte(b.first_meta_bg, k) by {
            reveal(Ext4Superblock::spec_byte);
            reveal(Ext4Superblock::image_part3);
            assert(a.spec_byte(260 + k) == b.spec_byte(260 + k));
        }
        lemma_u32_bytes_injective(a.first_meta_bg, b.first_meta_bg);
    }

    proof fn lemma_injective_part4(a: Self, b: Self)
        requires
            a.spec_to_bytes() == b.spec_to_bytes(),
        ensures
            a.mkfs_time == b.mkfs_time,
            a.journal_blocks == b.journal_blocks,
            a.blocks_count_hi == b.blocks_count_hi,
            a.reserved_blocks_count_hi == b.reserved_blocks_count_hi,
            a.free_blocks_count_hi == b.free_blocks_count_hi,
            a.min_extra_isize == b.min_extra_isize,
            a.want_extra_isize == b.want_extra_isize,
            a.flags == b.flags,
            a.raid_stride == b.raid_stride,
            a.mmp_interval == b.mmp_interval,
            a.mmp_block == b.mmp_block,
            a.raid_stripe_width == b.raid_stripe_width,
    {
        Ext4Superblock::lemma_same_image_bytes(a, b);
        assert forall|k: int| 0 <= k < 4 implies #[trigger] u32_byte(a.mkfs_time, k) == u32_byte(b.mkfs_time, k) by {
            reveal(Ext4Superblock::spec_byte);
            reveal(Ext4Superblock::image_part4);
            assert(a.spec_byte(264 + k) == b.spec_byte(264 + k));
        }
        lemma_u32_bytes_injective(a.mkfs_time, b.mkfs_time);
        assert forall|j: int| 0 <= j < 17 implies a.journal_blocks[j] == b.journal_blocks[j] by {
            assert forall|k: int| 0 <= k < 4 implies #[trigger] u32_byte(a.journal_blocks[j], k) == u32_byte(b.journal_blocks[j], k) by {
                reveal(Ext4Superblock::spec_byte);
                reveal(Ext4Superblock::image_part4);
                assert(a.spec_byte(268 + 4 * j + k) == b.spec_byte(268 + 4 * j + k));
            }
            lemma_u32_bytes_injective(a.journal_blocks[j], b.journal_blocks[j]);
        }
        assert(a.journal_blocks =~= b.journal_blocks);
        assert forall|k: int| 0 <= k < 4 implies #[trigger] u32_byte(a.blocks_count_hi, k) == u32_byte(b.blocks_count_hi, k) by {
            reveal(Ext4Superblock::spec_byte);
            reveal(Ext4Superblock::image_part4);
            assert(a.spec_byte(336 + k) == b.spec_byte(336 + k));
        }
        lemma_u32_bytes_injective(a.blocks_count_hi, b.blocks_count_hi);
        assert forall|k: int| 0 <= k < 4 implies #[trigger] u32_byte(a.reserved_blocks_count_hi, k) == u32_byte(b.reserved_blocks_count_hi, k) by {
            reveal(Ext4Superblock::spec_byte);
            reveal(Ext4Superblock::image_part4);
            assert(a.spec_byte(340 + k) == b.spec_byte(340 + k));
        }
        lemma_u32_bytes_injective(a.reserved_blocks_count_hi, b.reserved_blocks_count_hi);
        assert forall|k: int| 0 <= k < 4 implies #[trigger] u32_byte(a.free_blocks_count_hi, k) == u32_byte(b.free_blocks_count_hi, k) by {
            reveal(Ext4Superblock::spec_byte);
            reveal(Ext4Superblock::image_part4);
            assert(a.spec_byte(344 + k) == b.spec_byte(344 + k));
        }
        lemma_u32_bytes_injective(a.free_blocks_count_hi, b.free_blocks_count_hi);
        assert forall|k: int| 0 <= k < 2 implies #[trigger] u16_byte(a.min_extra_isize, k) == u16_byte(b.min_extra_isize, k) by {
            reveal(Ext4Superblock::spec_byte);
            reveal(Ext4Superblock::image_part4);
            assert(a.spec_byte(348 + k) == b.spec_byte(348 + k));
        }
        lemma_u16_bytes_injective(a.min_extra_isize, b.min_extra_isize);
        assert forall|k: int| 0 <= k < 2 implies #[trigger] u16_byte(a.want_extra_isize, k) == u16_byte(b.want_extra_isize, k) by {
            reveal(Ext4Superblock::spec_byte);
            reveal(Ext4Superblock::image_part4);
            assert(a.spec_byte(350 + k) == b.spec_byte(350 + k));
        }
        lemma_u16_bytes_injective(a.want_extra_isize, b.want_extra_isize);
        assert forall|k: int| 0 <= k < 4 implies #[trigger] u32_byte(a.flags, k) == u32_byte(b.flags, k) by {
            reveal(Ext4Superblock::spec_byte);
            reveal(Ext4Superblock::image_part4);
            assert(a.spec_byte(352 + k) == b.spec_byte(352 + k));
        }
        lemma_u32_bytes_injective(a.flags, b.flags);
        assert forall|k: int| 0 <= k < 2 implies #[trigger] u16_byte(a.raid_stride, k) == u16_byte(b.raid_stride, k) by {
            reveal(Ext4Superblock::spec_byte);
            reveal(Ext4Superblock::image_part4);
            assert(a.spec_byte(356 + k) == b.spec_byte(356 + k));
        }
        lemma_u16_bytes_injective(a.raid_stride, b.raid_stride);
        assert forall|k: int| 0 <= k < 2 implies #[trigger] u16_byte(a.mmp_interval, k) == u16_byte(b.mmp_interval, k) by {
            reveal(Ext4Superblock::spec_byte);
            reveal(Ext4Superblock::image_part4);
            assert(a.spec_byte(358 + k) == b.spec_byte(358 + k));
        }
        lemma_u16_bytes_injective(a.mmp_interval, b.mmp_interval);
        assert forall|k: int| 0 <= k < 8 implies #[trigger] u64_byte(a.mmp_block, k) == u64_byte(b.mmp_block, k) by {
            reveal(Ext4Superblock::spec_byte);
            reveal(Ext4Superblock::image_part4);
            assert(a.spec_byte(360 + k) == b.spec_byte(360 + k));
        }
        lemma_u64_bytes_injective(a.mmp_block, b.mmp_block);
        assert forall|k: int| 0 <= k < 4 implies #[trigger] u32_byte(a.raid_stripe_width, k) == u32_byte(b.raid_stripe_width, k) by {
            reveal(Ext4Superblock::spec_byte);
            reveal(Ext4Superblock::image_part4);
            assert(a.spec_byte(368 + k) == b.spec_byte(368 + k));
        }
        lemma_u32_bytes_injective(a.raid_stripe_width, b.raid_stripe_width);
    }

    proof fn lemma_injective_part5(a: Self, b: Self)
        requires
            a.spec_to_bytes() == b.spec_to_bytes(),
        ensures
            a.log_groups_per_flex == b.log_groups_per_flex,
            a.checksum_type == b.checksum_type,
            a.reserved_pad == b.reserved_pad,
            a.kbytes_written == b.kbytes_written,
            a.snapshot_inum == b.snapshot_inum,
            a.snapshot_id == b.snapshot_id,
            a.snapshot_r_blocks_count == b.snapshot_r_blocks_count,
            a.snapshot_list == b.snapshot_list,
            a.error_count == b.error_count,
            a.first_error_time == b.first_error_time,
            a.first_error_ino == b.first_error_ino,
            a.first_error_block == b.first_error_block,
    {
        Ext4Superblock::lemma_same_image_bytes(a, b);
        assert(a.log_groups_per_flex == b.log_groups_per_flex) by {
            reveal(Ext4Superblock::spec_byte);
            reveal(Ext4Superblock::image_part5);
            assert(a.spec_byte(372) == b.spec_byte(372));
        }
        assert(a.checksum_type == b.checksum_type) by {
            reveal(Ext4Superblock::spec_byte);
            reveal(Ext4Superblock::image_part5);
            assert(a.spec_byte(373) == b.spec_byte(373));
        }
        assert forall|k: int| 0 <= k < 2 implies #[trigger] u16_byte(a.reserved_pad, k) == u16_byte(b.reserved_pad, k) by {
            reveal(Ext4Superblock::spec_byte);
            reveal(Ext4Superblock::image_part5);
            assert(a.spec_byte(374 + k) == b.spec_byte(374 + k));
        }
        lemma_u16_bytes_injective(a.reserved_pad, b.reserved_pad);
        assert forall|k: int| 0 <= k < 8 implies #[trigger] u64_byte(a.kbytes_written, k) == u64_byte(b.kbytes_written, k) by {
            reveal(Ext4Superblock::spec_byte);
            reveal(Ext4Superblock::image_part5);
            assert(a.spec_byte(376 + k) == b.spec_byte(376 + k));
        }
        lemma_u64_bytes_injective(a.kbytes_written, b.kbytes_written);
        assert forall|k: int| 0 <= k < 4 implies #[trigger] u32_byte(a.snapshot_inum, k) == u32_byte(b.snapshot_inum, k) by {
            reveal(Ext4Superblock::spec_byte);
            reveal(Ext4Superblock::image_part5);
            assert(a.spec_byte(384 + k) == b.spec_byte(384 + k));
        }
        lemma_u32_bytes_injective(a.snapshot_inum, b.snapshot_inum);
        assert forall|k: int| 0 <= k < 4 implies #[trigger] u32_byte(a.snapshot_id, k) == u32_byte(b.snapshot_id, k) by {
            reveal(Ext4Superblock::spec_byte);
            reveal(Ext4Superblock::image_part5);
            assert(a.spec_byte(388 + k) == b.spec_byte(388 + k));
        }
        lemma_u32_bytes_injective(a.snapshot_id, b.snapshot_id);
        assert forall|k: int| 0 <= k < 8 implies #[trigger] u64_byte(a.snapshot_r_blocks_count, k) == u64_byte(b.snapshot_r_blocks_count, k) by {
            reveal(Ext4Superblock::spec_byte);
            reveal(Ext4Superblock::image_part5);
            assert(a.spec_byte(392 + k) == b.spec_byte(392 + k));
        }
        lemma_u64_bytes_injective(a.snapshot_r_blocks_count, b.snapshot_r_blocks_count);
        assert forall|k: int| 0 <= k < 4 implies #[trigger] u32_byte(a.snapshot_list, k) == u32_byte(b.snapshot_list, k) by {
            reveal(Ext4Superblock::spec_byte);
            reveal(Ext4Superblock::image_part5);
            assert(a.spec_byte(400 + k) == b.spec_byte(400 + k));
        }
        lemma_u32_bytes_injective(a.snapshot_list, b.snapshot_list);
        assert forall|k: int| 0 <= k < 4 implies #[trigger] u32_byte(a.error_count, k) == u32_byte(b.error_count, k) by {
            reveal(Ext4Superblock::spec_byte);
            reveal(Ext4Superblock::image_part5);
            assert(a.spec_byte(404 + k) == b.spec_byte(404 + k));
        }
        lemma_u32_bytes_injective(a.error_count, b.error_count);
        assert forall|k: int| 0 <= k < 4 implies #[trigger] u32_byte(a.first_error_time, k) == u32_byte(b.first_error_time, k) by {
            reveal(Ext4Superblock::spec_byte);
            reveal(Ext4Superblock::image_part5);
            assert(a.spec_byte(408 + k) == b.spec_byte(408 + k));
        }
        lemma_u32_bytes_injective(a.first_error_time, b.first_error_time);
        assert forall|k: int| 0 <= k < 4 implies #[trigger] u32_byte(a.first_error_ino, k) == u32_byte(b.first_error_ino, k) by {
            reveal(Ext4Superblock::spec_byte);
            reveal(Ext4Superblock::image_part5);
            assert(a.spec_byte(412 + k) == b.spec_byte(412 + k));
        }
        lemma_u32_bytes_injective(a.first_error_ino, b.first_error_ino);
        assert forall|k: int| 0 <= k < 8 implies #[trigger] u64_byte(a.first_error_block, k) == u64_byte(b.first_error_block, k) by {
            reveal(Ext4Superblock::spec_byte);
            reveal(Ext4Superblock::image_part5);
            assert(a.spec_byte(416 + k) == b.spec_byte(416 + k));
        }
        lemma_u64_bytes_injective(a.first_error_block, b.first_error_block);
    }

    proof fn lemma_injective_part6(a: Self, b: Self)
        requires
            a.spec_to_bytes() == b.spec_to_bytes(),
        ensures
            a.first_error_func == b.first_error_func,
            a.first_error_line == b.first_error_line,
            a.last_error_time == b.last_error_time,
            a.last_error_ino == b.last_error_ino,
            a.last_error_line == b.last_error_line,
            a.last_error_block == b.last_error_block,
            a.last_error_func == b.last_error_func,
            a.mount_opts == b.mount_opts,
            a.usr_quota_inum == b.usr_quota_inum,
            a.grp_quota_inum == b.grp_quota_inum,
            a.overhead_clusters == b.overhead_clusters,
            a.backup_bgs == b.backup_bgs,
    {
        Ext4Superblock::lemma_same_image_bytes(a, b);
        assert forall|k: int| 0 <= k < 32 implies a.first_error_func[k] == b.first_error_func[k] by {
            reveal(Ext4Superblock::spec_byte);
            reveal(Ext4Superblock::image_part6);
            assert(a.spec_byte(424 + k) == b.spec_byte(424 + k));
        }
        assert(a.first_error_func =~= b.first_error_func);
        assert forall|k: int| 0 <= k < 4 implies #[trigger] u32_byte(a.first_error_line, k) == u32_byte(b.first_error_line, k) by {
            reveal(Ext4Superblock::spec_byte);
            reveal(Ext4Superblock::image_part6);
            assert(a.spec_byte(456 + k) == b.spec_byte(456 + k));
        }
        lemma_u32_bytes_injective(a.first_error_line, b.first_error_line);
        assert forall|k: int| 0 <= k < 4 implies #[trigger] u32_byte(a.last_error_time, k) == u32_byte(b.last_error_time, k) by {
            reveal(Ext4Superblock::spec_byte);
            reveal(Ext4Superblock::image_part6);
            assert(a.spec_byte(460 + k) == b.spec_byte(460 + k));
        }
        lemma_u32_bytes_injective(a.last_error_time, b.last_error_time);
        assert forall|k: int| 0 <= k < 4 implies #[trigger] u32_byte(a.last_error_ino, k) == u32_byte(b.last_error_ino, k) by {
            reveal(Ext4Superblock::spec_byte);
            reveal(Ext4Superblock::image_part6);
            assert(a.spec_byte(464 + k) == b.spec_byte(464 + k));
        }
        lemma_u32_bytes_injective(a.last_error_ino, b.last_error_ino);
        assert forall|k: int| 0 <= k < 4 implies #[trigger] u32_byte(a.last_error_line, k) == u32_byte(b.last_error_line, k) by {
            reveal(Ext4Superblock::spec_byte);
            reveal(Ext4Superblock::image_part6);
            assert(a.spec_byte(468 + k) == b.spec_byte(468 + k));
        }
        lemma_u32_bytes_injective(a.last_error_line, b.last_error_line);
        assert forall|k: int| 0 <= k < 8 implies #[trigger] u64_byte(a.last_error_block, k) == u64_byte(b.last_error_block, k) by {
            reveal(Ext4Superblock::spec_byte);
            reveal(Ext4Superblock::image_part6);
            assert(a.spec_byte(472 + k) == b.spec_byte(472 + k));
        }
        lemma_u64_bytes_injective(a.last_error_block, b.last_error_block);
        assert forall|k: int| 0 <= k < 32 implies a.last_error_func[k] == b.last_error_func[k] by {
            reveal(Ext4Superblock::spec_byte);
            reveal(Ext4Superblock::image_part6);
            assert(a.spec_byte(480 + k) == b.spec_byte(480 + k));
        }
        assert(a.last_error_func =~= b.last_error_func);
        assert forall|k: int| 0 <= k < 64 implies a.mount_opts[k] == b.mount_opts[k] by {
            reveal(Ext4Superblock::spec_byte);
            reveal(Ext4Superblock::image_part6);
            assert(a.spec_byte(512 + k) == b.spec_byte(512 + k));
        }
        assert(a.mount_opts =~= b.mount_opts);
        assert forall|k: int| 0 <= k < 4 implies #[trigger] u32_byte(a.usr_quota_inum, k) == u32_byte(b.usr_quota_inum, k) by {
            reveal(Ext4Superblock::spec_byte);
            reveal(Ext4Superblock::image_part6);
            assert(a.spec_byte(576 + k) == b.spec_byte(576 + k));
        }
        lemma_u32_bytes_injective(a.usr_quota_inum, b.usr_quota_inum);
        assert forall|k: int| 0 <= k < 4 implies #[trigger] u32_byte(a.grp_quota_inum, k) == u32_byte(b.grp_quota_inum, k) by {
            reveal(Ext4Superblock::spec_byte);
            reveal(Ext4Superblock::image_part6);
            assert(a.spec_byte(580 + k) == b.spec_byte(580 + k));
        }
        lemma_u32_bytes_injective(a.grp_quota_inum, b.grp_quota_inum);
        assert forall|k: int| 0 <= k < 4 implies #[trigger] u32_byte(a.overhead_clusters, k) == u32_byte(b.overhead_clusters, k) by {
            reveal(Ext4Superblock::spec_byte);
            reveal(Ext4Superblock::image_part6);
            assert(a.spec_byte(584 + k) == b.spec_byte(584 + k));
        }
        lemma_u32_bytes_injective(a.overhead_clusters, b.overhead_clusters);
        assert forall|j: int| 0 <= j < 2 implies a.backup_bgs[j] == b.backup_bgs[j] by {
            assert forall|k: int| 0 <= k < 4 implies #[trigger] u32_byte(a.backup_bgs[j], k) == u32_byte(b.backup_bgs[j], k) by {
                reveal(Ext4Superblock::spec_byte);
                reveal(Ext4Superblock::image_part6);
                assert(a.spec_byte(588 + 4 * j + k) == b.spec_byte(588 + 4 * j + k));
            }
            lemma_u32_bytes_injective(a.backup_bgs[j], b.backup_bgs[j]);
        }
        assert(a.backup_bgs =~= b.backup_bgs);
    }

    proof fn lemma_injective_part7(a: Self, b: Self)
        requires
            a.spec_to_bytes() == b.spec_to_bytes(),
        ensures
            a.encrypt_algos == b.encrypt_algos,
            a.encrypt_pw_salt == b.encrypt_pw_salt,
            a.lpf_ino == b.lpf_ino,
            a.padding == b.padding,
            a.checksum == b.checksum,
    {
        Ext4Superblock::lemma_same_image_bytes(a, b);
        assert forall|k: int| 0 <= k < 4 implies a.encrypt_algos[k] == b.encrypt_algos[k] by {
            reveal(Ext4Superblock::spec_byte);
            reveal(Ext4Superblock::image_part7);
            assert(a.spec_byte(596 + k) == b.spec_byte(596 + k));
        }
        assert(a.encrypt_algos =~= b.encrypt_algos);
        assert forall|k: int| 0 <= k < 16 implies a.encrypt_pw_salt[k] == b.encrypt_pw_salt[k] by {
            reveal(Ext4Superblock::spec_byte);
            reveal(Ext4Superblock::image_part7);
            assert(a.spec_byte(600 + k) == b.spec_byte(600 + k));
        }
        assert(a.encrypt_pw_salt =~= b.encrypt_pw_salt);
        assert forall|k: int| 0 <= k < 4 implies #[trigger] u32_byte(a.lpf_ino, k) == u32_byte(b.lpf_ino, k) by {
            reveal(Ext4Superblock::spec_byte);
            reveal(Ext4Superblock::image_part7);
            assert(a.spec_byte(616 + k) == b.spec_byte(616 + k));
        }
        lemma_u32_bytes_injective(a.lpf_ino, b.lpf_ino);
        assert forall|j: int| 0 <= j < 100 implies a.padding[j] == b.padding[j] by {
            assert forall|k: int| 0 <= k < 4 implies #[trigger] u32_byte(a.padding[j], k) == u32_byte(b.padding[j], k) by {
                reveal(Ext4Superblock::spec_byte);
                reveal(Ext4Superblock::image_part7);
                assert(a.spec_byte(620 + 4 * j + k) == b.spec_byte(620 + 4 * j + k));
            }
            lemma_u32_bytes_injective(a.padding[j], b.padding[j]);
        }
        assert(a.padding =~= b.padding);
        assert forall|k: int| 0 <= k < 4 implies #[trigger] u32_byte(a.checksum, k) == u32_byte(b.checksum, k) by {
            reveal(Ext4Superblock::spec_byte);
            reveal(Ext4Superblock::image_part7);
            assert(a.spec_byte(1020 + k) == b.spec_byte(1020 + k));
        }
        lemma_u32_bytes_injective(a.checksum, b.checksum);
    }

    proof fn lemma_same_image_bytes(a: Self, b: Self)
        requires
            a.spec_to_bytes() == b.spec_to_bytes(),
        ensures
            forall|i: int| 0 <= i < 1024 ==> #[trigger] a.spec_byte(i) == b.spec_byte(i),
    {
        assert forall|i: int| 0 <= i < 1024 implies #[trigger] a.spec_byte(i) == b.spec_byte(i) by {
            assert(a.spec_to_bytes()[i] == a.spec_byte(i));
            assert(b.spec_to_bytes()[i] == b.spec_byte(i));
        }
    }

    /// Two values with the same image are equal.
    pub proof fn lemma_image_injective(a: Self, b: Self)
        requires
            a.spec_to_bytes() == b.spec_to_bytes(),
        ensures
            a == b,
    {
        Ext4Superblock::lemma_injective_part0(a, b);
        Ext4Superblock::lemma_injective_part1(a, b);
        Ext4Superblock::lemma_injective_part2(a, b);
        Ext4Superblock::lemma_injective_part3(a, b);
        Ext4Superblock::lemma_injective_part4(a, b);
        Ext4Superblock::lemma_injective_part5(a, b);
        Ext4Superblock::lemma_injective_part6(a, b);
        Ext4Superblock::lemma_injective_part7(a, b);
    }

    pub closed spec fn spec_inodes_count(self) -> u32 {
        self.inodes_count
    }

    pub closed spec fn spec_inode_size(self) -> u16 {
        self.inode_size
    }

    pub closed spec fn spec_blocks_per_group(self) -> u32 {
        self.blocks_per_group
    }

    pub closed spec fn spec_inodes_per_group(self) -> u32 {
        self.inodes_per_group
    }

    pub closed spec fn spec_first_data_block(self) -> u32 {
        self.first_data_block
    }

    /// The descriptor size as stored, before the minimum is applied.
    pub closed spec fn spec_raw_desc_size(self) -> u16 {
        self.desc_size
    }

    pub closed spec fn spec_uuid(self) -> Seq<u8> {
        self.uuid@
    }

    /// The 64-bit block count, from its low and high halves.
    pub closed spec fn spec_blocks_count(self) -> nat {
        self.blocks_count_hi as nat * 0x1_0000_0000 + self.blocks_count_lo as nat
    }

    /// The size of a block group descriptor: the stored size, but at least
    /// `EXT4_MIN_BLOCK_GROUP_DESCRIPTOR_SIZE`.
    pub open spec fn spec_desc_size(self) -> u16 {
        if self.spec_raw_desc_size() < EXT4_MIN_BLOCK_GROUP_DESCRIPTOR_SIZE {
            EXT4_MIN_BLOCK_GROUP_DESCRIPTOR_SIZE
        } else {
            self.spec_raw_desc_size()
        }
    }

    /// The number of block groups: enough groups of `blocks_per_group`
    /// blocks to hold every block from the first data block on.
    pub open spec fn spec_block_groups_count(self) -> nat {
        ceil_div(
            (self.spec_blocks_count() - self.spec_first_data_block()) as nat,
            self.spec_blocks_per_group() as nat,
        )
    }

    /// Where in the image the fields that the library reads are stored.
    pub proof fn lemma_field_offsets(self)
        ensures
            self.spec_inodes_count() == le_u32(self.spec_to_bytes(), 0),
            self.spec_blocks_count() == le_u32(self.spec_to_bytes(), 336) as nat * 0x1_0000_0000
                + le_u32(self.spec_to_bytes(), 4) as nat,
            self.spec_first_data_block() == le_u32(self.spec_to_bytes(), 20),
            self.spec_blocks_per_group() == le_u32(self.spec_to_bytes(), 32),
            self.spec_inodes_per_group() == le_u32(self.spec_to_bytes(), 40),
            self.spec_inode_size() == le_u16(self.spec_to_bytes(), 88),
            self.spec_uuid() == self.spec_to_bytes().subrange(104, 120),
            self.spec_raw_desc_size() == le_u16(self.spec_to_bytes(), 254),
    {
        let s = self.spec_to_bytes();
        assert forall|k: int| 0 <= k < 4 implies s[k] == #[trigger] u32_byte(self.inodes_count, k) by {
            reveal(Ext4Superblock::spec_byte);
            reveal(Ext4Superblock::image_part0);
        }
        lemma_le_u32_of_bytes(s, 0, self.inodes_count);
        assert forall|k: int| 0 <= k < 4 implies s[4 + k] == #[trigger] u32_byte(self.blocks_count_lo, k) by {
            reveal(Ext4Superblock::spec_byte);
            reveal(Ext4Superblock::image_part0);
        }
        lemma_le_u32_of_bytes(s, 4, self.blocks_count_lo);
        assert forall|k: int| 0 <= k < 4 implies s[20 + k] == #[trigger] u32_byte(self.first_data_block, k) by {
            reveal(Ext4Superblock::spec_byte);
            reveal(Ext4Superblock::image_part0);
        }
        lemma_le_u32_of_bytes(s, 20, self.first_data_block);
        assert forall|k: int| 0 <= k < 4 implies s[32 + k] == #[trigger] u32_byte(self.blocks_per_group, k) by {
            reveal(Ext4Superblock::spec_byte);
            reveal(Ext4Superblock::image_part0);
        }
        lemma_le_u32_of_bytes(s, 32, self.blocks_per_group);
        assert forall|k: int| 0 <= k < 4 implies s[40 + k] == #[trigger] u32_byte(self.inodes_per_group, k) by {
            reveal(Ext4Superblock::spec_byte);
            reveal(Ext4Superblock::image_part0);
        }
        lemma_le_u32_of_bytes(s, 40, self.inodes_per_group);
        assert forall|k: int| 0 <= k < 2 implies s[88 + k] == #[trigger] u16_byte(self.inode_size, k) by {
            reveal(Ext4Superblock::spec_byte);
            reveal(Ext4Superblock::image_part2);
        }
        lemma_le_u16_of_bytes(s, 88, self.inode_size);
        assert forall|k: int| 0 <= k < 16 implies s[104 + k] == self.uuid[k] by {
            reveal(Ext4Superblock::spec_byte);
            reveal(Ext4Superblock::image_part2);
        }
        assert(self.spec_uuid() =~= s.subrange(104, 120));
        assert forall|k: int| 0 <= k < 2 implies s[254 + k] == #[trigger] u16_byte(self.desc_size, k) by {
            reveal(Ext4Superblock::spec_byte);
            reveal(Ext4Superblock::image_part3);
        }
        lemma_le_u16_of_bytes(s, 254, self.desc_size);
        assert forall|k: int| 0 <= k < 4 implies s[336 + k] == #[trigger] u32_byte(self.blocks_count_hi, k) by {
            reveal(Ext4Superblock::spec_byte);
            reveal(Ext4Superblock::image_part4);
        }
        lemma_le_u32_of_bytes(s, 336, self.blocks_count_hi);
    }

    /// Returns the size of inode structure.
    pub fn inode_size(&self) -> (r: u16)
        ensures
            r == self.spec_inode_size(),
    {
        self.inode_size
    }

    /// Returns total number of inodes.
    pub fn total_inodes(&self) -> (r: u32)
        ensures
            r == self.spec_inodes_count(),
    {
        self.inodes_count
    }

    /// Returns the number of blocks in each block group.
    pub fn blocks_per_group(&self) -> (r: u32)
        ensures
            r == self.spec_blocks_per_group(),
    {
        self.blocks_per_group
    }

    /// Returns the number of inodes in each block group.
    pub fn inodes_per_group(&self) -> (r: u32)
        ensures
            r == self.spec_inodes_per_group(),
    {
        self.inodes_per_group
    }

    /// Returns the first data block.
    pub fn first_data_block(&self) -> (r: u32)
        ensures
            r == self.spec_first_data_block(),
    {
        self.first_data_block
    }

    /// Returns the descriptor size as stored, before the minimum is applied.
    pub fn raw_desc_size(&self) -> (r: u16)
        ensures
            r == self.spec_raw_desc_size(),
    {
        self.desc_size
    }

    /// Returns the 128-bit uuid of the volume.
    pub fn uuid(&self) -> (r: [u8; 16])
        ensures
            r@ == self.spec_uuid(),
    {
        self.uuid
    }

    /// Returns the number of block groups: the blocks from the first data
    /// block to the end of the 64-bit block count, divided by the blocks per
    /// group, rounded up, truncated to 32 bits.
    pub fn block_groups_count(&self) -> (r: u32)
        requires
            self.spec_blocks_per_group() > 0,
            self.spec_blocks_count() >= self.spec_first_data_block(),
        ensures
            r == self.spec_block_groups_count() as u32,
    {
        let hi: u32 = self.blocks_count_hi;
        let lo: u32 = self.blocks_count_lo;
        let total: u64 = ((hi as u64) << 32u64) | (lo as u64);
        assert(total == (hi as u64) * 0x1_0000_0000u64 + (lo as u64)) by (bit_vector)
            requires
                total == ((hi as u64) << 32u64) | (lo as u64),
        ;
        let blocks: u64 = total - self.first_data_block as u64;
        let per_group: u64 = self.blocks_per_group as u64;
        let q: u64 = blocks / per_group;
        if blocks % per_group != 0 {
            assert(q < 0xffff_ffff_ffff_ffffu64) by (nonlinear_arith)
                requires
                    q == blocks / per_group,
                    blocks % per_group != 0,
                    per_group > 0,
            {
                assert(per_group >= 2);
                assert(q * per_group <= blocks);
                assert(q * 2 <= q * per_group);
            }
            (q + 1) as u32
        } else {
            q as u32
        }
    }

    /// Returns the size of a block group descriptor, at least
    /// `EXT4_MIN_BLOCK_GROUP_DESCRIPTOR_SIZE`.
    pub fn desc_size(&self) -> (r: u16)
        ensures
            r == self.spec_desc_size(),
            r >= EXT4_MIN_BLOCK_GROUP_DESCRIPTOR_SIZE,
    {
        let size = self.desc_size;
        if size < EXT4_MIN_BLOCK_GROUP_DESCRIPTOR_SIZE {
            return EXT4_MIN_BLOCK_GROUP_DESCRIPTOR_SIZE;
        } else {
            size
        }
    }

    /// Writes the superblock's image at `BASE_OFFSET` on the device.
    pub fn sync_super_block_to_disk<D: BlockDevice + ?Sized>(&self, block_device: &D) -> (r: Result<(), Ext4Error>)
        ensures
            block_device.spec_write_requested(BASE_OFFSET, self.spec_to_bytes()),
            r is Ok,
    {
        let data = self.to_bytes();
        block_device.write_offset(BASE_OFFSET, data.as_slice());
        Ok(())
    }
}

/// `a` divided by `b`, rounded up.
pub open spec fn ceil_div(a: nat, b: nat) -> nat {
    if a % b == 0 {
        a / b
    } else {
        a / b + 1
    }
}

impl Ext4Superblock {
    /// The block groups hold every block from the first data block on, and
    /// the last group is not wholly past the last block: count * per_group
    /// covers those blocks by less than one group.
    pub proof fn lemma_block_groups_cover(self)
        requires
            self.spec_blocks_per_group() > 0,
            self.spec_blocks_count() >= self.spec_first_data_block(),
        ensures
            self.spec_block_groups_count() * self.spec_blocks_per_group() >= self.spec_blocks_count()
                - self.spec_first_data_block(),
            self.spec_block_groups_count() * self.spec_blocks_per_group() < self.spec_blocks_count()
                - self.spec_first_data_block() + self.spec_blocks_per_group(),
    {
        let a = (self.spec_blocks_count() - self.spec_first_data_block()) as nat;
        let b = self.spec_blocks_per_group() as nat;
        assert(a == (a / b) * b + a % b && 0 <= a % b < b) by (nonlinear_arith)
            requires
                b > 0,
        ;
        if a % b == 0 {
        } else {
            assert((a / b + 1) * b == (a / b) * b + b) by (nonlinear_arith);
        }
    }

    /// Decoding the image of a superblock gives the superblock back.
    pub proof fn lemma_decode_image(self, v: Vec<u8>)
        requires
            v@ == self.spec_to_bytes(),
        ensures
            <Ext4Superblock as vstd::std_specs::convert::TryFromSpec<Vec<u8>>>::try_from_spec(v)
                == Ok::<Ext4Superblock, Ext4Error>(self),
    {
        let image = v@.subrange(0, SUPERBLOCK_SIZE as int);
        assert(image =~= self.spec_to_bytes());
        let c = choose|x: Ext4Superblock| x.spec_to_bytes() == image;
        Ext4Superblock::lemma_image_injective(c, self);
    }
}

impl TryFrom<Vec<u8>> for Ext4Superblock {
    type Error = Ext4Error;

    /// Decodes a superblock from the first `SUPERBLOCK_SIZE` bytes of
    /// `value`; fails when there are fewer.
    fn try_from(value: Vec<u8>) -> (r: Result<Self, Ext4Error>)
        ensures
            r is Ok <==> value@.len() >= SUPERBLOCK_SIZE,
            r matches Err(e) ==> e == Ext4Error::BufferTooShort,
            r matches Ok(sb) ==> sb.spec_to_bytes() == value@.subrange(0, SUPERBLOCK_SIZE as int),
    {
        if value.len() < SUPERBLOCK_SIZE {
            Err(Ext4Error::BufferTooShort)
        } else {
            let sb = Ext4Superblock::parse(value.as_slice(), 0);
            proof {
                let image = value@.subrange(0, SUPERBLOCK_SIZE as int);
                let c = choose|x: Ext4Superblock| x.spec_to_bytes() == image;
                assert(sb.spec_to_bytes() == image);
                Ext4Superblock::lemma_image_injective(c, sb);
            }
            Ok(sb)
        }
    }
}

impl vstd::std_specs::convert::TryFromSpecImpl<Vec<u8>> for Ext4Superblock {
    open spec fn obeys_try_from_spec() -> bool {
        true
    }

    /// The superblock whose image is the first `SUPERBLOCK_SIZE` bytes.
    open spec fn try_from_spec(v: Vec<u8>) -> Result<Self, Ext4Error> {
        if v@.len() < SUPERBLOCK_SIZE {
            Err(Ext4Error::BufferTooShort)
        } else {
            Ok(choose|x: Ext4Superblock| x.spec_to_bytes() == v@.subrange(0, SUPERBLOCK_SIZE as int))
        }
    }
}

} // verus!
