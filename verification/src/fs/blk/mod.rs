pub mod ramdisk;
