use libkernel::error::{IoError, KernelError};
use libkernel::fs::blk::ramdisk::{RamdiskBlkDev, BLOCK_SIZE};
use libkernel::memory::ramdisk::Ramdisk;
use libkernel::memory::{PAGE_MASK, PAGE_SHIFT, PAGE_SIZE};

#[test]
fn page_constants() {
    assert_eq!(PAGE_SIZE, 4096);
    assert_eq!(1usize << PAGE_SHIFT, PAGE_SIZE);
    assert_eq!(PAGE_MASK, PAGE_SIZE - 1);
    assert_eq!(BLOCK_SIZE, PAGE_SIZE);
}

#[test]
fn ramdisk_keeps_base_and_len() {
    let rd = Ramdisk::from_raw(0xffff_9800_0000_0000, 3 * 4096);
    assert_eq!(rd.base(), 0xffff_9800_0000_0000);
    assert_eq!(rd.len(), 3 * 4096);
}

#[test]
fn blkdev_needs_whole_blocks() {
    assert!(matches!(RamdiskBlkDev::new(Ramdisk::from_raw(0x1000, 4097)), Err(KernelError::InvalidValue)));
    assert!(matches!(RamdiskBlkDev::new(Ramdisk::from_raw(0x1000, 100)), Err(KernelError::InvalidValue)));
    assert!(RamdiskBlkDev::new(Ramdisk::from_raw(0x1000, 0)).is_ok());
    let dev = RamdiskBlkDev::new(Ramdisk::from_raw(0x1000, 8192)).ok().unwrap();
    assert_eq!(dev.block_size(), 4096);
    assert_eq!(dev.sync(), Ok(()));
}

#[test]
fn read_gives_back_what_write_wrote() {
    let dev = RamdiskBlkDev::new(Ramdisk::from_raw(0x1000, 4 * 4096)).ok().unwrap();
    let mut mem = vec![0u8; 4 * 4096];
    let data: Vec<u8> = (0..8192u32).map(|i| (i % 251) as u8).collect();
    assert_eq!(dev.write(&mut mem, 1, &data), Ok(()));
    // Block 0 and 3 untouched.
    assert!(mem[..4096].iter().all(|&b| b == 0));
    assert!(mem[3 * 4096..].iter().all(|&b| b == 0));
    let mut back = vec![0xaau8; 8192];
    assert_eq!(dev.read(&mem, 1, &mut back), Ok(()));
    assert_eq!(back, data);
    let mut one = vec![0u8; 4096];
    assert_eq!(dev.read(&mem, 2, &mut one), Ok(()));
    assert_eq!(&one[..], &data[4096..]);
}

#[test]
fn out_of_bounds_io_fails_and_touches_nothing() {
    let dev = RamdiskBlkDev::new(Ramdisk::from_raw(0x1000, 2 * 4096)).ok().unwrap();
    let mut mem = vec![7u8; 2 * 4096];
    let data = vec![1u8; 2 * 4096];
    assert_eq!(dev.write(&mut mem, 1, &data), Err(KernelError::Io(IoError::OutOfBounds)));
    assert!(mem.iter().all(|&b| b == 7));
    let mut buf = vec![9u8; 4096];
    assert_eq!(dev.read(&mem, 2, &mut buf), Err(KernelError::Io(IoError::OutOfBounds)));
    assert!(buf.iter().all(|&b| b == 9));
    // Reading zero blocks at the end is fine.
    let mut none: Vec<u8> = Vec::new();
    assert_eq!(dev.read(&mem, 2, &mut none), Ok(()));
}

#[test]
fn blkdev_reports_its_ramdisk_and_blocks() {
    let dev = RamdiskBlkDev::new(Ramdisk::from_raw(0x8000, 5 * 4096)).ok().unwrap();
    assert_eq!(dev.num_blocks(), 5);
    assert_eq!(dev.ramdisk().base(), 0x8000);
    assert_eq!(dev.ramdisk().len(), 5 * 4096);
}
