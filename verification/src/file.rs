//! Open files and mount points.
use vstd::prelude::*;

verus! {

/// Where a seek counts from.
#[derive(Copy, PartialEq, Eq, Clone, Debug)]
pub enum SeekFrom {
    Start(usize),
    End(isize),
    Current(isize),
}

/// File descriptor.
pub struct Ext4FileNew {
    /// Handle of the mount point the file belongs to; `None` when the file
    /// is attached to none.
    pub mp: Option<usize>,
    /// Inode number of the file.
    pub inode: u32,
    /// Open flags.
    pub flags: u32,
    /// File size.
    pub fsize: u64,
    /// Current position in the file.
    pub fpos: u64,
}

impl Ext4FileNew {
    /// A descriptor attached to no mount point, with every field zero.
    pub fn new() -> (r: Self)
        ensures
            r.mp is None,
            r.inode == 0,
            r.flags == 0,
            r.fsize == 0,
            r.fpos == 0,
    {
        Self { mp: None, inode: 0, flags: 0, fsize: 0, fpos: 0 }
    }
}

/// Mount point descriptor.
pub struct Ext4MountPoint {
    /// Mount done flag.
    pub mounted: bool,
    /// Mount point name (see `ext4_mount`).
    pub mount_name: [char; 33],
    pub mount_name_string: String,
}

} // verus!
