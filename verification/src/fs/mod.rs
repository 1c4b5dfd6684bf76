//! Virtual Filesystem (VFS) value types.
pub mod attr;
pub mod blk;
pub mod cpio;
pub mod initramfs;

use crate::driver::CharDevDescriptor;
use crate::error::KernelError;
use vstd::prelude::*;
use vstd::std_specs::convert::FromSpecImpl;

verus! {

// Reserved pseudo filesystem instances created internally in the kernel.
/// Filesystem instance ID for the device filesystem.
pub const DEVFS_ID: u64 = 1;
/// Filesystem instance ID for the proc filesystem.
pub const PROCFS_ID: u64 = 2;
/// Filesystem instance ID for the sys filesystem.
pub const SYSFS_ID: u64 = 3;
/// Filesystem instance ID for the cgroup filesystem.
pub const CGROUPFS_ID: u64 = 4;
/// Starting ID for user-mounted filesystem instances.
pub const FS_ID_START: u64 = 10;

/// A unique identifier for an inode across the entire VFS, combining a
/// filesystem ID and an inode number.
#[derive(Debug, Clone, Copy, PartialEq, Eq, Structural, PartialOrd, Ord)]
pub struct InodeId(u64, u64);

impl View for InodeId {
    type V = (u64, u64);

    closed spec fn view(&self) -> (u64, u64) {
        (self.0, self.1)
    }
}

impl InodeId {
    /// Creates an `InodeId` from a filesystem ID and an inode number.
    pub fn from_fsid_and_inodeid(fs_id: u64, inode_id: u64) -> (res: Self)
        ensures
            res@ == (fs_id, inode_id),
    {
        Self(fs_id, inode_id)
    }

    /// Returns a sentinel `InodeId` used as a placeholder.
    pub fn dummy() -> (res: Self)
        ensures
            res@ == (u64::MAX, u64::MAX),
    {
        Self(u64::MAX, u64::MAX)
    }

    /// Returns the filesystem ID component.
    pub fn fs_id(self) -> (res: u64)
        ensures
            res == self@.0,
    {
        self.0
    }

    /// Returns the inode number component.
    pub fn inode_id(self) -> (res: u64)
        ensures
            res == self@.1,
    {
        self.1
    }
}

/// Two identifiers are equal exactly when both their filesystem IDs and
/// their inode numbers are: an identifier is made of its two parts and
/// nothing else, and gives each back unchanged.
pub proof fn lemma_inode_id_parts(a: InodeId, b: InodeId)
    ensures
        (a == b) <==> (a@.0 == b@.0 && a@.1 == b@.1),
{
}


/// Standard POSIX file types.
#[derive(Debug, Copy, Clone, PartialEq, Eq, Structural)]
pub enum FileType {
    /// A regular file.
    File,
    /// A directory.
    Directory,
    /// A symbolic link.
    Symlink,
    /// A block device.
    BlockDevice(CharDevDescriptor),
    /// A character device.
    CharDevice(CharDevDescriptor),
    /// A named pipe.
    Fifo,
    /// A socket.
    Socket,
}

/// The `S_IFMT` bits of a POSIX mode that stand for each file type.
pub open spec fn file_type_mode_bits(file_type: FileType) -> u32 {
    match file_type {
        FileType::Directory => 0o040000,
        FileType::CharDevice(_) => 0o020000,
        FileType::BlockDevice(_) => 0o060000,
        FileType::File => 0o100000,
        FileType::Fifo => 0o010000,
        FileType::Symlink => 0o120000,
        FileType::Socket => 0o140000,
    }
}

impl From<FileType> for u32 {
    /// The `S_IFMT` bits of a POSIX mode for this file type.
    fn from(file_type: FileType) -> (res: Self) {
        match file_type {
            FileType::Directory => 0o040000,
            FileType::CharDevice(_) => 0o020000,
            FileType::BlockDevice(_) => 0o060000,
            FileType::File => 0o100000,
            FileType::Fifo => 0o010000,
            FileType::Symlink => 0o120000,
            FileType::Socket => 0o140000,
        }
    }
}

impl FromSpecImpl<FileType> for u32 {
    open spec fn obeys_from_spec() -> bool {
        true
    }

    open spec fn from_spec(file_type: FileType) -> u32 {
        file_type_mode_bits(file_type)
    }
}

/// A stateful, streaming reader of directory entries.
pub trait DirStream {
    /// Fetches the next directory entry in the stream. Returns `Ok(None)`
    /// when the end of the directory is reached.
    fn next_entry(&mut self) -> Result<Option<Dirent>, KernelError>;
}

/// Represents a single directory entry.
#[derive(Debug)]
pub struct Dirent {
    /// The inode identifier of this entry.
    pub id: InodeId,
    /// The name of this directory entry.
    pub name: String,
    /// The type of file this entry represents.
    pub file_type: FileType,
    /// The byte offset of this entry within the directory.
    pub offset: u64,
}

impl Dirent {
    /// Creates a new directory entry.
    pub fn new(name: String, id: InodeId, file_type: FileType, offset: u64) -> (res: Self)
        ensures
            res.name == name,
            res.id == id,
            res.file_type == file_type,
            res.offset == offset,
    {
        Self { id, name, file_type, offset }
    }
}

impl Clone for Dirent {
    fn clone(&self) -> (res: Self)
        ensures
            res == *self,
    {
        Dirent {
            id: self.id,
            name: self.name.clone(),
            file_type: self.file_type,
            offset: self.offset,
        }
    }
}

/// Specifies how to seek within a file, mirroring `std::io::SeekFrom`.
#[derive(Debug, Copy, Clone, PartialEq, Eq, Structural)]
pub enum SeekFrom {
    /// Seek from the beginning of the file.
    Start(u64),
    /// Seek from the end of the file.
    End(i64),
    /// Seek relative to the current position.
    Current(i64),
}

/// A simple in-memory directory stream backed by a `Vec` of entries.
pub struct SimpleDirStream {
    entries: Vec<Dirent>,
    idx: usize,
}

impl View for SimpleDirStream {
    /// The entries, and the index of the next one to give.
    type V = (Seq<Dirent>, int);

    closed spec fn view(&self) -> (Seq<Dirent>, int) {
        (self.entries@, self.idx as int)
    }
}

impl SimpleDirStream {
    /// Creates a new `SimpleDirStream` starting at the given offset.
    pub fn new(entries: Vec<Dirent>, start_offset: u64) -> (res: Self)
        ensures
            res@ == (entries@, #[verifier::truncate] (start_offset as usize) as int),
    {
        Self { entries, idx: #[verifier::truncate] (start_offset as usize) }
    }
}

/// One step of a directory stream: the entry at the current index, and the
/// stream moved past it; no entry, and the stream unchanged, at the end.
pub open spec fn spec_next_entry(s: (Seq<Dirent>, int)) -> (Option<Dirent>, (Seq<Dirent>, int)) {
    if 0 <= s.1 < s.0.len() {
        (Some(s.0[s.1]), (s.0, s.1 + 1))
    } else {
        (None, s)
    }
}

impl DirStream for SimpleDirStream {
    fn next_entry(&mut self) -> (res: Result<Option<Dirent>, KernelError>)
        ensures
            res == Ok::<Option<Dirent>, KernelError>(spec_next_entry(old(self)@).0),
            final(self)@ == spec_next_entry(old(self)@).1,
    {
        if self.idx < self.entries.len() {
            let entry = self.entries[self.idx].clone();
            self.idx = self.idx + 1;
            Ok(Some(entry))
        } else {
            Ok(None)
        }
    }
}

/// A stream started at offset `k` gives the entries from index `k` on, one
/// per step, in order; once it has given none it gives none again and stays
/// as it is.
pub proof fn lemma_dir_stream_order(entries: Seq<Dirent>, k: int, i: nat)
    requires
        0 <= k,
    ensures
        spec_dir_stream_after(entries, k, i).0 == entries,
        k + i <= entries.len() ==> spec_dir_stream_after(entries, k, i).1 == k + i,
        k + i < entries.len() ==> spec_next_entry(spec_dir_stream_after(entries, k, i)).0 == Some(
            entries[k + i],
        ),
        k + i >= entries.len() ==> spec_next_entry(spec_dir_stream_after(entries, k, i)).0 is None,
        k + i >= entries.len() ==> spec_next_entry(spec_dir_stream_after(entries, k, i)).1
            == spec_dir_stream_after(entries, k, i),
    decreases i,
{
    lemma_dir_stream_index(entries, k, i);
}

proof fn lemma_dir_stream_index(entries: Seq<Dirent>, k: int, i: nat)
    requires
        0 <= k,
    ensures
        spec_dir_stream_after(entries, k, i) == (entries, if k >= entries.len() {
            k
        } else if k + i <= entries.len() {
            k + i
        } else {
            entries.len() as int
        }),
    decreases i,
{
    if i > 0 {
        lemma_dir_stream_index(entries, k, (i - 1) as nat);
    }
}

/// The stream state after `i` steps from index `k`, each step taken while
/// entries are left.
pub open spec fn spec_dir_stream_after(entries: Seq<Dirent>, k: int, i: nat) -> (Seq<Dirent>, int)
    decreases i,
{
    if i == 0 {
        (entries, k)
    } else {
        let prev = spec_dir_stream_after(entries, k, (i - 1) as nat);
        if prev.1 < entries.len() {
            spec_next_entry(prev).1
        } else {
            prev
        }
    }
}

/// How many bytes a read of a `len`-byte file at `offset` into a buffer of
/// `buf_len` bytes copies: what is left after the offset, at most the buffer.
pub open spec fn spec_read_len(len: int, offset: int, buf_len: int) -> int {
    let left = if offset < len {
        len - offset
    } else {
        0
    };
    if left < buf_len {
        left
    } else {
        buf_len
    }
}

/// The read of a simple file whose whole contents are `contents`: copies the
/// bytes from `offset` on into the front of `buf`, as many as fit, and
/// returns how many it copied. The rest of `buf` is left as it was.
pub fn simple_file_read_at(contents: &[u8], offset: u64, buf: &mut [u8]) -> (n: usize)
    ensures
        n as int == spec_read_len(contents@.len() as int, #[verifier::truncate] (offset as usize) as int, old(buf)@.len() as int),
        final(buf)@.len() == old(buf)@.len(),
        forall|j: int| 0 <= j < n ==> final(buf)@[j] == contents@[#[verifier::truncate] (offset as usize) + j],
        final(buf)@.subrange(n as int, old(buf)@.len() as int) == old(buf)@.subrange(
            n as int,
            old(buf)@.len() as int,
        ),
{
    let off = #[verifier::truncate] (offset as usize);
    let left = contents.len().saturating_sub(off);
    let end = if left < buf.len() {
        left
    } else {
        buf.len()
    };
    if end == 0 {
        assert(buf@.subrange(0, buf@.len() as int) =~= buf@);
        return 0;
    }
    let mut i: usize = 0;
    while i < end
        invariant
            end <= buf@.len() == old(buf)@.len(),
            off + end <= contents.len(),
            0 <= i <= end,
            forall|j: int| 0 <= j < i ==> buf@[j] == contents@[off + j],
            forall|j: int| i <= j < buf@.len() ==> buf@[j] == old(buf)@[j],
        decreases end - i,
    {
        buf[i] = contents[off + i];
        i = i + 1;
    }
    assert(buf@.subrange(end as int, buf@.len() as int) =~= old(buf)@.subrange(
        end as int,
        old(buf)@.len() as int,
    ));
    end
}

/// A read copies as much as it can: never more than the buffer holds nor
/// past the end of the file, nothing from at or past the end, and otherwise
/// either a full buffer or everything up to the end. So reads from offset 0
/// on, each at the offset where the last one stopped, give every byte of
/// the file before a read gives 0.
pub proof fn lemma_read_len_maximal(len: int, offset: int, buf_len: int)
    requires
        0 <= len,
        0 <= offset,
        0 <= buf_len,
    ensures
        0 <= spec_read_len(len, offset, buf_len) <= buf_len,
        offset >= len ==> spec_read_len(len, offset, buf_len) == 0,
        offset < len ==> offset + spec_read_len(len, offset, buf_len) <= len,
        offset < len ==> spec_read_len(len, offset, buf_len) == buf_len || offset
            + spec_read_len(len, offset, buf_len) == len,
        offset < len && buf_len > 0 ==> spec_read_len(len, offset, buf_len) > 0,
{
}

} // verus!
