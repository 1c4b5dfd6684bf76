# libkernel

Pieces of a kernel's library, verified with Verus.

- `src/fs/cpio.rs`: a reader for "newc" cpio archives (the initramfs
  format), specified entry by entry (`spec_parse_entry`, `spec_next`).
- `src/fs/initramfs.rs`: the plan by which each archive entry is placed in
  a directory tree (path cleaning, unusable names, hardlink groups), and the
  small decisions around the tree work.
- `src/fs/mod.rs`, `src/fs/attr.rs`, `src/driver.rs`: VFS value types
  (`InodeId`, `FileType`, `Dirent`, `SimpleDirStream`, permissions) and the
  read of a simple in-memory file.
- `src/fs/blk/ramdisk.rs`, `src/memory/`: a block device over ramdisk
  memory, with read and write proved against the bytes of the ramdisk.
- `src/kopts.rs`: the kernel command line's long options.
- `src/error.rs`: the kernel's error types.

`app/` holds what Verus does not check: the error types' messages, the
asynchronous VFS traits, the async driver that unpacks an archive onto a
live tree, raw access to mapped ramdisk memory, and the command-line reader
built on `getargs`.
