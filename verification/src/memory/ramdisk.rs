//! Ramdisks that have been mapped into the kernel's address space.
use vstd::prelude::*;

verus! {

/// A ramdisk in the kernel's address space: the virtual address where its
/// bytes start, and how many there are. The bytes themselves are reached
/// through that mapping, outside this type.
#[derive(Debug)]
pub struct Ramdisk {
    ptr: usize,
    len: usize,
}

/// A ramdisk as a value: its base address and its length.
pub struct RamdiskView {
    pub base: usize,
    pub len: usize,
}

impl View for Ramdisk {
    type V = RamdiskView;

    closed spec fn view(&self) -> RamdiskView {
        RamdiskView { base: self.ptr, len: self.len }
    }
}

impl Ramdisk {
    /// A ramdisk of `len` bytes at virtual address `ptr`. The memory there
    /// must already be mapped before its bytes are read or written.
    pub fn from_raw(ptr: usize, len: usize) -> (res: Self)
        ensures
            res@ == (RamdiskView { base: ptr, len }),
    {
        Self { ptr, len }
    }

    /// The virtual address of the first byte.
    pub fn base(&self) -> (res: usize)
        ensures
            res == self@.base,
    {
        self.ptr
    }

    /// The length in bytes.
    pub fn len(&self) -> (res: usize)
        ensures
            res == self@.len,
    {
        self.len
    }
}

} // verus!
