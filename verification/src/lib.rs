//! Kernel library pieces: the cpio reader behind the initramfs, the plan by
//! which an initramfs is unpacked, the VFS value types, and the RAM-backed
//! block device, each with its contract proved by Verus.
pub mod driver;
pub mod error;
pub mod fs;
pub mod memory;
pub mod kopts;
