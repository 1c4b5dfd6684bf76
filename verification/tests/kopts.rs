use libkernel::kopts::{init_argv, long_opt, root_source, split_automount, KOptions, LongOpt, RootSource};

#[test]
fn long_option_names() {
    assert_eq!(long_opt("init"), LongOpt::Init);
    assert_eq!(long_opt("init-arg"), LongOpt::InitArg);
    assert_eq!(long_opt("rootfs"), LongOpt::RootFs);
    assert_eq!(long_opt("automount"), LongOpt::Automount);
    assert_eq!(long_opt("initx"), LongOpt::Unknown);
    assert_eq!(long_opt("Init"), LongOpt::Unknown);
    assert_eq!(long_opt(""), LongOpt::Unknown);
}

#[test]
fn automount_values() {
    assert_eq!(split_automount("/dev,devfs"), Some(("/dev", "devfs")));
    assert_eq!(split_automount("/proc,procfs,extra"), Some(("/proc", "procfs")));
    assert_eq!(split_automount("/sys,"), Some(("/sys", "")));
    assert_eq!(split_automount(",tmpfs"), Some(("", "tmpfs")));
    assert_eq!(split_automount("/dev"), None);
    assert_eq!(split_automount("/d\u{e9}v,f\u{e9}"), Some(("/d\u{e9}v", "f\u{e9}")));
}

#[test]
fn options_are_applied() {
    let mut k = KOptions::new();
    assert!(k.apply(LongOpt::Init, "/bin/init"));
    assert!(k.apply(LongOpt::RootFs, "ext4"));
    assert!(k.apply(LongOpt::InitArg, "-v"));
    assert!(k.apply(LongOpt::InitArg, "single"));
    assert!(k.apply(LongOpt::Automount, "/dev,devfs"));
    assert!(!k.apply(LongOpt::Automount, "nocomma"));
    assert!(k.apply(LongOpt::Init, "/sbin/init"));
    assert_eq!(k.init.as_deref(), Some("/sbin/init"));
    assert_eq!(k.root_fs.as_deref(), Some("ext4"));
    assert_eq!(k.init_args, vec!["-v".to_string(), "single".to_string()]);
    assert_eq!(k.automounts, vec![("/dev".to_string(), "devfs".to_string())]);
}

#[test]
fn root_comes_from_initramfs_or_rootfs() {
    assert_eq!(root_source(Some(b"070701...")), RootSource::Initramfs);
    assert_eq!(root_source(Some(b"\0\0\0\0\0\0\0")), RootSource::RootFs { with_ramdisk: true });
    assert_eq!(root_source(None), RootSource::RootFs { with_ramdisk: false });
}

#[test]
fn init_argv_puts_path_first() {
    let argv = init_argv("/bin/init", &vec!["a".to_string(), "b".to_string()]);
    assert_eq!(argv, vec!["/bin/init".to_string(), "a".to_string(), "b".to_string()]);
    assert_eq!(init_argv("/x", &vec![]), vec!["/x".to_string()]);
}
