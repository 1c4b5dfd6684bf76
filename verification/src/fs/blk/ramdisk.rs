//! RAM-backed block device.
//!
//! The device reads and writes the bytes of a [`Ramdisk`]. Those bytes live
//! in mapped memory; the operations here take them as a slice, `mem`, which
//! stands for the whole ramdisk.
use crate::error::{IoError, KernelError};
use crate::memory::ramdisk::{Ramdisk, RamdiskView};
use crate::memory::PAGE_SIZE;
use vstd::prelude::*;

verus! {

/// The size of a block in bytes: one page.
pub const BLOCK_SIZE: usize = PAGE_SIZE;

/// A block device backed by a region of RAM.
pub struct RamdiskBlkDev {
    rd: Ramdisk,
    num_blocks: u64,
}

/// A block device as a value: its ramdisk and how many blocks it holds.
pub struct RamdiskBlkDevView {
    pub ramdisk: RamdiskView,
    pub blocks: nat,
}

impl View for RamdiskBlkDev {
    type V = RamdiskBlkDevView;

    closed spec fn view(&self) -> RamdiskBlkDevView {
        RamdiskBlkDevView { ramdisk: self.rd@, blocks: self.num_blocks as nat }
    }
}

impl RamdiskBlkDev {
    #[verifier::type_invariant]
    spec fn whole_blocks(self) -> bool {
        &&& self.rd@.len % 4096 == 0
        &&& self.num_blocks == self.rd@.len / 4096
    }

    /// The ramdisk under the device.
    pub fn ramdisk(&self) -> (res: &Ramdisk)
        ensures
            res@ == self@.ramdisk,
    {
        &self.rd
    }

    /// How many blocks the device holds: its ramdisk is exactly that many
    /// blocks long.
    pub fn num_blocks(&self) -> (res: u64)
        ensures
            res == self@.blocks,
            self@.ramdisk.len % 4096 == 0,
            self@.blocks == self@.ramdisk.len / 4096,
    {
        proof {
            use_type_invariant(self);
        }
        self.num_blocks
    }

    /// Take in a ramdisk (reference struct) and create a block device over
    /// it. The ramdisk must be a whole number of blocks long.
    pub fn new(rd: Ramdisk) -> (res: Result<Self, KernelError>)
        ensures
            rd@.len % 4096 != 0 ==> res == Err::<Self, KernelError>(KernelError::InvalidValue),
            rd@.len % 4096 == 0 ==> (res matches Ok(dev) && dev@.ramdisk == rd@ && dev@.blocks
                == rd@.len / 4096),
    {
        if rd.len() % BLOCK_SIZE != 0 {
            return Err(KernelError::InvalidValue);
        }
        let num_blocks = (rd.len() / BLOCK_SIZE) as u64;
        Ok(Self { rd, num_blocks })
    }

    /// Reads `buf.len() / BLOCK_SIZE` blocks starting at `block_id` from the
    /// ramdisk's bytes `mem` into `buf`. Fails, reading nothing, where the
    /// blocks run past the end of the device.
    pub fn read(&self, mem: &[u8], block_id: u64, buf: &mut [u8]) -> (res: Result<(), KernelError>)
        requires
            mem@.len() == self@.ramdisk.len,
            old(buf)@.len() % 4096 == 0,
            block_id + old(buf)@.len() / 4096 <= u64::MAX,
        ensures
            final(buf)@.len() == old(buf)@.len(),
            block_id + old(buf)@.len() / 4096 > self@.blocks ==> res == Err::<(), KernelError>(
                KernelError::Io(IoError::OutOfBounds),
            ) && final(buf)@ == old(buf)@,
            block_id + old(buf)@.len() / 4096 <= self@.blocks ==> res is Ok && final(buf)@
                == mem@.subrange(block_id * 4096, block_id * 4096 + old(buf)@.len()),
    {
        proof {
            use_type_invariant(self);
        }
        let num_blocks_to_read = (buf.len() / BLOCK_SIZE) as u64;
        if block_id + num_blocks_to_read > self.num_blocks {
            return Err(KernelError::Io(IoError::OutOfBounds));
        }
        let offset = block_id as usize * BLOCK_SIZE;
        let len = buf.len();
        let mut i: usize = 0;
        while i < len
            invariant
                len == buf@.len() == old(buf)@.len(),
                offset == block_id * 4096,
                offset + len <= mem.len(),
                0 <= i <= len,
                forall|j: int| 0 <= j < i ==> buf@[j] == mem@[offset + j],
            decreases len - i,
        {
            buf[i] = mem[offset + i];
            i = i + 1;
        }
        assert(buf@ =~= mem@.subrange(offset as int, offset + len));
        Ok(())
    }

    /// Writes `buf` as `buf.len() / BLOCK_SIZE` blocks starting at
    /// `block_id` into the ramdisk's bytes `mem`. Fails, writing nothing,
    /// where the blocks run past the end of the device.
    pub fn write(&self, mem: &mut [u8], block_id: u64, buf: &[u8]) -> (res: Result<(), KernelError>)
        requires
            old(mem)@.len() == self@.ramdisk.len,
            buf@.len() % 4096 == 0,
            block_id + buf@.len() / 4096 <= u64::MAX,
        ensures
            final(mem)@.len() == old(mem)@.len(),
            block_id + buf@.len() / 4096 > self@.blocks ==> res == Err::<(), KernelError>(
                KernelError::Io(IoError::OutOfBounds),
            ) && final(mem)@ == old(mem)@,
            block_id + buf@.len() / 4096 <= self@.blocks ==> res is Ok && final(mem)@
                == spec_write_bytes(old(mem)@, block_id * 4096, buf@),
    {
        proof {
            use_type_invariant(self);
        }
        let num_blocks_to_write = (buf.len() / BLOCK_SIZE) as u64;
        if block_id + num_blocks_to_write > self.num_blocks {
            return Err(KernelError::Io(IoError::OutOfBounds));
        }
        let offset = block_id as usize * BLOCK_SIZE;
        let len = buf.len();
        let mut i: usize = 0;
        while i < len
            invariant
                len == buf@.len(),
                mem@.len() == old(mem)@.len(),
                offset == block_id * 4096,
                offset + len <= mem.len(),
                0 <= i <= len,
                forall|j: int| 0 <= j < i ==> mem@[offset + j] == buf@[j],
                forall|j: int|
                    0 <= j < mem@.len() && !(offset <= j < offset + i) ==> mem@[j] == old(mem)@[j],
            decreases len - i,
        {
            mem[offset + i] = buf[i];
            i = i + 1;
        }
        assert(mem@ =~= spec_write_bytes(old(mem)@, offset as int, buf@));
        Ok(())
    }

    /// The size of a single block in bytes.
    pub fn block_size(&self) -> (res: usize)
        ensures
            res == 4096,
    {
        BLOCK_SIZE
    }

    /// Flushes any caches to the underlying device: a ramdisk has none.
    pub fn sync(&self) -> (res: Result<(), KernelError>)
        ensures
            res is Ok,
    {
        Ok(())
    }
}

/// `mem` with the bytes from `offset` on replaced by `bytes`.
pub open spec fn spec_write_bytes(mem: Seq<u8>, offset: int, bytes: Seq<u8>) -> Seq<u8> {
    mem.subrange(0, offset) + bytes + mem.subrange(offset + bytes.len(), mem.len() as int)
}

/// What a read gives back of a write: after a successful write of `buf` at
/// block `w`, a read of `n` bytes at block `r` gives the written bytes where
/// the two ranges meet and the earlier bytes elsewhere; in particular a read
/// of the same blocks gives back exactly `buf`.
pub proof fn lemma_read_after_write(mem: Seq<u8>, w: int, buf: Seq<u8>, r: int, n: int)
    requires
        0 <= w,
        0 <= r,
        0 <= n,
        w * 4096 + buf.len() <= mem.len(),
        r * 4096 + n <= mem.len(),
    ensures
        ({
            let after = spec_write_bytes(mem, w * 4096, buf);
            &&& after.len() == mem.len()
            &&& forall|j: int|
                0 <= j < n ==> #[trigger] after.subrange(r * 4096, r * 4096 + n)[j] == if w * 4096
                    <= r * 4096 + j < w * 4096 + buf.len() {
                    buf[r * 4096 + j - w * 4096]
                } else {
                    mem[r * 4096 + j]
                }
        }),
        spec_write_bytes(mem, w * 4096, buf).subrange(w * 4096, w * 4096 + buf.len()) == buf,
{
    let after = spec_write_bytes(mem, w * 4096, buf);
    assert(after.subrange(w * 4096, w * 4096 + buf.len()) =~= buf);
}

} // verus!
