use libkernel::driver::CharDevDescriptor;
use libkernel::error::KernelError;
use libkernel::fs::attr::FilePermissions;
use libkernel::fs::{
    simple_file_read_at, DirStream, Dirent, FileType, InodeId, SeekFrom, SimpleDirStream,
    CGROUPFS_ID, DEVFS_ID, FS_ID_START, PROCFS_ID, SYSFS_ID,
};

#[test]
fn inode_id_parts() {
    let id = InodeId::from_fsid_and_inodeid(7, 99);
    assert_eq!(id.fs_id(), 7);
    assert_eq!(id.inode_id(), 99);
    let d = InodeId::dummy();
    assert_eq!(d.fs_id(), u64::MAX);
    assert_eq!(d.inode_id(), u64::MAX);
    assert_eq!(id, InodeId::from_fsid_and_inodeid(7, 99));
    assert_ne!(id, InodeId::from_fsid_and_inodeid(7, 98));
    assert!(InodeId::from_fsid_and_inodeid(1, 9) < InodeId::from_fsid_and_inodeid(2, 0));
}

#[test]
fn reserved_filesystem_ids() {
    assert_eq!((DEVFS_ID, PROCFS_ID, SYSFS_ID, CGROUPFS_ID, FS_ID_START), (1, 2, 3, 4, 10));
}

#[test]
fn file_type_mode_values() {
    let d = CharDevDescriptor { major: 0, minor: 0 };
    assert_eq!(u32::from(FileType::Directory), 0o040000);
    assert_eq!(u32::from(FileType::CharDevice(d)), 0o020000);
    assert_eq!(u32::from(FileType::BlockDevice(d)), 0o060000);
    assert_eq!(u32::from(FileType::File), 0o100000);
    assert_eq!(u32::from(FileType::Fifo), 0o010000);
    assert_eq!(u32::from(FileType::Symlink), 0o120000);
    assert_eq!(u32::from(FileType::Socket), 0o140000);
}

fn dirent(name: &str, n: u64) -> Dirent {
    Dirent::new(
        name.to_string(),
        InodeId::from_fsid_and_inodeid(1, n),
        FileType::File,
        n,
    )
}

#[test]
fn dirent_new_keeps_fields() {
    let e = dirent("hello", 5);
    assert_eq!(e.name, "hello");
    assert_eq!(e.id, InodeId::from_fsid_and_inodeid(1, 5));
    assert_eq!(e.file_type, FileType::File);
    assert_eq!(e.offset, 5);
    let c = e.clone();
    assert_eq!(c.name, e.name);
    assert_eq!(c.offset, e.offset);
}

#[test]
fn dir_stream_from_start() {
    let mut s = SimpleDirStream::new(vec![dirent("a", 0), dirent("b", 1), dirent("c", 2)], 0);
    let mut names = Vec::new();
    while let Some(e) = s.next_entry().unwrap() {
        names.push(e.name);
    }
    assert_eq!(names, vec!["a", "b", "c"]);
    assert!(s.next_entry().unwrap().is_none());
}

#[test]
fn dir_stream_from_offset() {
    let mut s = SimpleDirStream::new(vec![dirent("a", 0), dirent("b", 1), dirent("c", 2)], 2);
    assert_eq!(s.next_entry().unwrap().unwrap().name, "c");
    assert!(s.next_entry().unwrap().is_none());
    let mut past = SimpleDirStream::new(vec![dirent("a", 0)], 5);
    assert!(past.next_entry().unwrap().is_none());
    let mut empty = SimpleDirStream::new(vec![], 0);
    assert!(empty.next_entry().unwrap().is_none());
}

#[test]
fn read_at_copies_what_fits() {
    let contents = b"0123456789";
    let mut buf = [b'.'; 4];
    assert_eq!(simple_file_read_at(contents, 0, &mut buf), 4);
    assert_eq!(&buf, b"0123");
    let mut buf = [b'.'; 4];
    assert_eq!(simple_file_read_at(contents, 8, &mut buf), 2);
    assert_eq!(&buf, b"89..");
    let mut buf = [b'.'; 4];
    assert_eq!(simple_file_read_at(contents, 10, &mut buf), 0);
    assert_eq!(&buf, b"....");
    let mut buf = [b'.'; 4];
    assert_eq!(simple_file_read_at(contents, u64::MAX, &mut buf), 0);
    assert_eq!(&buf, b"....");
    let mut buf = [b'.'; 20];
    assert_eq!(simple_file_read_at(contents, 3, &mut buf), 7);
    assert_eq!(&buf[..7], b"3456789");
    assert_eq!(&buf[7..], &[b'.'; 13]);
    let mut empty: [u8; 0] = [];
    assert_eq!(simple_file_read_at(contents, 0, &mut empty), 0);
}

#[test]
fn permissions_hold_their_bits() {
    assert_eq!(FilePermissions::from_bits_retain(0o4755).bits(), 0o4755);
    assert_eq!(FilePermissions::empty().bits(), 0);
}

#[test]
fn seek_from_variants() {
    assert_eq!(SeekFrom::Start(3), SeekFrom::Start(3));
    assert_ne!(SeekFrom::End(-1), SeekFrom::Current(-1));
}

#[test]
fn dir_stream_result_is_ok() {
    let mut s = SimpleDirStream::new(vec![dirent("a", 0)], 0);
    let r: Result<Option<Dirent>, KernelError> = s.next_entry();
    assert!(r.is_ok());
}
