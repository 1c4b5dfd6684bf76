//! Memory management primitives.
pub mod ramdisk;

use vstd::prelude::*;

verus! {

/// The system page size in bytes (4 KiB).
pub const PAGE_SIZE: usize = 4096;

/// The number of bits to shift to convert between byte offsets and page numbers.
pub const PAGE_SHIFT: usize = 12;

/// Bitmask for extracting the within-page offset from an address.
pub const PAGE_MASK: usize = 4095;

} // verus!
