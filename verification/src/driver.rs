//! Device descriptors shared by the filesystem layer.
use vstd::prelude::*;

verus! {

/// The major and minor numbers of a character or block device.
#[derive(Debug, Clone, Copy, PartialEq, Eq, Structural)]
pub struct CharDevDescriptor {
    /// The major number: which driver serves the device.
    pub major: u64,
    /// The minor number: which device of that driver.
    pub minor: u64,
}

} // verus!
