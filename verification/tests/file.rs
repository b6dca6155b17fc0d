use lib::{Ext4FileNew, SeekFrom};

#[test]
fn new_file_is_empty() {
    let f = Ext4FileNew::new();
    assert!(f.mp.is_none());
    assert_eq!(f.inode, 0);
    assert_eq!(f.flags, 0);
    assert_eq!(f.fsize, 0);
    assert_eq!(f.fpos, 0);
}

#[test]
fn seek_from_compares_by_value() {
    assert_eq!(SeekFrom::Start(3), SeekFrom::Start(3));
    assert_ne!(SeekFrom::End(-1), SeekFrom::Current(-1));
}
