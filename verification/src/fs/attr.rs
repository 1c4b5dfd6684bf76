//! File attributes.
use vstd::prelude::*;

verus! {

/// The permission bits of an inode: the low twelve bits of a POSIX mode
/// (set-user-ID, set-group-ID, sticky, and read/write/execute for owner,
/// group and others). Any bits may be held; none is dropped.
#[derive(Debug, Clone, Copy, PartialEq, Eq, Structural)]
pub struct FilePermissions {
    bits: u16,
}

impl View for FilePermissions {
    type V = u16;

    closed spec fn view(&self) -> u16 {
        self.bits
    }
}

impl FilePermissions {
    /// Permissions holding exactly the given bits.
    pub fn from_bits_retain(bits: u16) -> (res: Self)
        ensures
            res@ == bits,
    {
        FilePermissions { bits }
    }

    /// Permissions with no bit set.
    pub fn empty() -> (res: Self)
        ensures
            res@ == 0,
    {
        FilePermissions { bits: 0 }
    }

    /// The bits held.
    pub fn bits(&self) -> (res: u16)
        ensures
            res == self@,
    {
        self.bits
    }
}

} // verus!
