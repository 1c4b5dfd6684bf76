use libkernel::error::{FsError, KernelError};
use libkernel::fs::cpio::CpioFile;
use libkernel::fs::initramfs::{
    attr_update, dir_create_step, implicit_dir_permissions, walk_step, DirCreateStep, EntryAction,
    EntryPlan, HLKey, Unpacker, WalkStep, WriteAll, IMPLICIT_DIR_MODE,
};

fn file<'a>(name: &'a str, mode: u32, nlink: u32, ino: u32, data: &'a [u8]) -> CpioFile<'a> {
    CpioFile {
        name,
        data,
        mode,
        uid: 1,
        gid: 2,
        mtime: 1234,
        nlink,
        ino,
        dev: (8, 1),
        rdev: (0, 0),
    }
}

/// The parent components and the entry's own name of a `Place` plan.
fn place<'a>(f: &CpioFile<'a>, plan: &EntryPlan<'a>) -> (Vec<&'a str>, &'a str) {
    match plan {
        EntryPlan::Place { path, .. } => {
            let p = &f.name[path.start..path.end];
            let segs: Vec<&str> = path.segments.iter().map(|&(a, b)| &p[a..b]).collect();
            let (name, parents) = segs.split_last().unwrap();
            (parents.to_vec(), name)
        }
        other => panic!("not a placement: {other:?}"),
    }
}

#[test]
fn root_entries_set_root_attributes() {
    let u = Unpacker::new();
    for name in [".", "./", "", "/", "//", ".//", "./."] {
        let f = file(name, 0o040755, 1, 0, b"");
        assert!(matches!(u.plan(&f), EntryPlan::Root), "{name:?}");
    }
}

#[test]
fn leading_dot_slash_and_slash_are_dropped() {
    let u = Unpacker::new();
    for name in ["./bin/bash", "/bin/bash", "bin/bash", "bin/bash/", "./bin/bash//"] {
        let f = file(name, 0o100755, 1, 0, b"");
        let plan = u.plan(&f);
        assert_eq!(place(&f, &plan), (vec!["bin"], "bash"), "{name:?}");
    }
    let f = file("usr/local/lib/libc.so", 0o100644, 1, 0, b"");
    let plan = u.plan(&f);
    assert_eq!(place(&f, &plan), (vec!["usr", "local", "lib"], "libc.so"));
    let f = file("init", 0o100755, 1, 0, b"");
    let plan = u.plan(&f);
    assert_eq!(place(&f, &plan), (vec![], "init"));
}

#[test]
fn unusable_names_are_skipped() {
    let u = Unpacker::new();
    for name in ["a//b", "a/./b", "a/../b", "..", "../x", "x/..", "x/.", "//x", "./../x"] {
        let f = file(name, 0o100644, 1, 0, b"");
        assert!(matches!(u.plan(&f), EntryPlan::SkipUnusableName), "{name:?}");
    }
    // Dots inside a component are fine.
    let f = file("a/.hidden/..b", 0o100644, 1, 0, b"");
    let plan = u.plan(&f);
    assert_eq!(place(&f, &plan), (vec!["a", ".hidden"], "..b"));
}

#[test]
fn actions_follow_file_types() {
    let u = Unpacker::new();
    let f = file("d", 0o040755, 1, 0, b"");
    assert!(matches!(u.plan(&f), EntryPlan::Place { action: EntryAction::Directory, .. }));
    let f = file("l", 0o120777, 1, 0, b"target/file");
    match u.plan(&f) {
        EntryPlan::Place { action: EntryAction::Symlink { target }, .. } => assert_eq!(target, "target/file"),
        other => panic!("{other:?}"),
    }
    let f = file("l", 0o120777, 1, 0, b"\xff\xfe");
    assert!(matches!(u.plan(&f), EntryPlan::Place { action: EntryAction::SkipBadSymlinkTarget, .. }));
    for mode in [0o020666, 0o060660, 0o010644, 0o140755, 0o000644] {
        let f = file("dev/x", mode, 1, 0, b"");
        let plan = u.plan(&f);
        // The parents are still walked before the entry is skipped.
        assert_eq!(place(&f, &plan), (vec!["dev"], "x"));
        assert!(matches!(plan, EntryPlan::Place { action: EntryAction::SkipUnsupported, .. }), "{mode:o}");
    }
}

#[test]
fn hardlink_group_shares_one_node() {
    let mut u = Unpacker::new();
    let first = file("a", 0o100644, 2, 77, b"");
    let second = file("b", 0o100644, 2, 77, b"payload");
    let key = HLKey { dev: (8, 1), ino: 77 };
    match u.plan(&first) {
        EntryPlan::Place { action: EntryAction::Regular { link_to, remember }, .. } => {
            assert_eq!(link_to, None);
            assert_eq!(remember, Some(key));
        }
        other => panic!("{other:?}"),
    }
    u.remember(key, 5);
    assert_eq!(u.lookup(key), Some(5));
    match u.plan(&second) {
        EntryPlan::Place { action: EntryAction::Regular { link_to, remember }, .. } => {
            assert_eq!(link_to, Some(5));
            assert_eq!(remember, None);
        }
        other => panic!("{other:?}"),
    }
    // Another device, same inode number: another group.
    let mut other_dev = file("c", 0o100644, 2, 77, b"");
    other_dev.dev = (8, 2);
    assert!(matches!(
        u.plan(&other_dev),
        EntryPlan::Place { action: EntryAction::Regular { link_to: None, remember: Some(_) }, .. }
    ));
}

#[test]
fn files_outside_groups_are_always_created() {
    let mut u = Unpacker::new();
    u.remember(HLKey { dev: (8, 1), ino: 77 }, 5);
    // A single link, or no inode number, is no group.
    for (nlink, ino) in [(1, 77), (2, 0), (0, 77)] {
        let f = file("f", 0o100644, nlink, ino, b"");
        assert!(matches!(
            u.plan(&f),
            EntryPlan::Place { action: EntryAction::Regular { link_to: None, remember: None }, .. }
        ));
    }
}

#[test]
fn later_records_win() {
    let mut u = Unpacker::new();
    let k = HLKey { dev: (1, 2), ino: 3 };
    assert_eq!(u.lookup(k), None);
    u.remember(k, 1);
    u.remember(HLKey { dev: (1, 2), ino: 4 }, 2);
    u.remember(k, 9);
    assert_eq!(u.lookup(k), Some(9));
    assert_eq!(u.lookup(HLKey { dev: (1, 2), ino: 4 }), Some(2));
    assert_eq!(u.lookup(HLKey { dev: (2, 2), ino: 3 }), None);
}

#[test]
fn walk_and_dir_creation_steps() {
    assert!(matches!(walk_step(&Ok(())), WalkStep::Descend));
    assert!(matches!(walk_step(&Err(KernelError::Fs(FsError::NotFound))), WalkStep::CreateDirectory));
    assert!(matches!(
        walk_step(&Err(KernelError::Fs(FsError::NotADirectory))),
        WalkStep::Fail(KernelError::Fs(FsError::NotADirectory))
    ));
    assert!(matches!(dir_create_step(&Ok(())), DirCreateStep::UseCreated));
    assert!(matches!(dir_create_step(&Err(KernelError::Fs(FsError::AlreadyExists))), DirCreateStep::LookUp));
    assert!(matches!(dir_create_step(&Err(KernelError::NoMemory)), DirCreateStep::Fail(KernelError::NoMemory)));
    assert_eq!(implicit_dir_permissions().bits(), 0o755);
    assert_eq!(IMPLICIT_DIR_MODE, 0o755);
}

#[test]
fn write_all_progress() {
    let empty = WriteAll::new(0);
    assert_eq!(empty.next_offset(), None);
    let mut w = WriteAll::new(10);
    assert_eq!(w.next_offset(), Some(0));
    assert_eq!(w.advance(4), Ok(()));
    assert_eq!(w.next_offset(), Some(4));
    assert_eq!(w.advance(0), Err(KernelError::Fs(FsError::OutOfBounds)));
    assert_eq!(w.next_offset(), Some(4));
    assert_eq!(w.advance(6), Ok(()));
    assert_eq!(w.next_offset(), None);
}

#[test]
fn attributes_from_entry() {
    let f = file("x", 0o104755, 1, 0, b"");
    let a = attr_update(&f);
    assert_eq!((a.uid, a.gid, a.time_secs), (1, 2, 1234));
    assert_eq!(a.permissions.bits(), 0o4755);
}
