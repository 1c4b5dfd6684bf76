//! Unified kernel error types.
//!
//! [`KernelError`] is the top-level enum and wraps the domain-specific errors
//! [`MapError`], [`ProbeError`], [`IoError`], [`FsError`] and [`ExecError`].
use vstd::prelude::*;
use vstd::std_specs::convert::FromSpecImpl;

verus! {

/// Errors that can occur during device probing.
#[derive(Debug, PartialEq, Eq, Structural, Clone, Copy)]
pub enum ProbeError {
    /// No registers present in the Flattened Device Tree.
    NoReg,
    /// No register bank size found in the Flattened Device Tree.
    NoRegSize,
    /// No interrupts declared in the Flattened Device Tree.
    NoInterrupts,
    /// No parent interrupt controller found in the Flattened Device Tree.
    NoParentInterrupt,
    /// The specified interrupt parent is not an interrupt controller.
    NotInterruptController,
    /// Driver probing should be tried again after other probes have succeeded.
    Deferred,
    /// Device inspected but not a match for this driver; skip silently.
    NoMatch,
}

/// Errors that can occur during page table mapping.
#[derive(Debug, PartialEq, Eq, Structural, Clone, Copy)]
pub enum MapError {
    /// Physical address is not page aligned.
    PhysNotAligned,
    /// Virtual address is not page aligned.
    VirtNotAligned,
    /// Physical and virtual range sizes do not match.
    SizeMismatch,
    /// Failed to walk to the next level page table.
    WalkFailed,
    /// Invalid page table descriptor encountered.
    InvalidDescriptor,
    /// The region to be mapped is smaller than `PAGE_SIZE`.
    TooSmall,
    /// The virtual address range has already been mapped.
    AlreadyMapped,
    /// The virtual address is not canonical.
    NonCanonicalAddress,
    /// Page table does not contain an L3 mapping.
    NotL3Mapped,
}

/// Errors from block-level I/O operations.
#[derive(Debug, PartialEq, Eq, Structural, Clone, Copy)]
pub enum IoError {
    /// The requested I/O operation was out of bounds for the block device.
    OutOfBounds,
    /// Corruption found in the filesystem metadata.
    MetadataCorruption,
}

/// Errors from filesystem operations.
#[derive(Debug, PartialEq, Eq, Structural, Clone, Copy)]
pub enum FsError {
    /// The path or file was not found.
    NotFound,
    /// The path component is not a directory.
    NotADirectory,
    /// The path component is a directory.
    IsADirectory,
    /// The file or directory already exists.
    AlreadyExists,
    /// The directory is not empty.
    DirectoryNotEmpty,
    /// The device or resource is busy.
    Busy,
    /// Invalid input parameters.
    InvalidInput,
    /// The filesystem is corrupted or has an invalid format.
    InvalidFs,
    /// Attempted to access data out of bounds.
    OutOfBounds,
    /// The operation is not permitted.
    PermissionDenied,
    /// Could not find the specified filesystem driver.
    DriverNotFound,
    /// Too many open files.
    TooManyFiles,
    /// The device could not be found.
    NoDevice,
    /// Too many symbolic links encountered.
    Loop,
    /// Attempted to rename across devices.
    CrossDevice,
    /// A cpio archive is malformed.
    CpioError,
}

/// Errors that occur when loading or parsing an executable.
#[derive(Debug, PartialEq, Eq, Structural, Clone, Copy)]
pub enum ExecError {
    /// Invalid ELF format.
    InvalidElfFormat,
    /// Invalid script format.
    InvalidScriptFormat,
    /// Invalid program header format.
    InvalidPHdrFormat,
}

/// Top-level kernel error type wrapping all domain-specific errors.
#[derive(Debug, PartialEq, Eq, Clone, Copy)]
pub enum KernelError {
    /// Cannot allocate memory.
    NoMemory,
    /// Memory region not found.
    NoMemRegion,
    /// Invalid value.
    InvalidValue,
    /// The current resource is already in use.
    InUse,
    /// Page table mapping failed.
    MappingError(MapError),
    /// Provided object is too large.
    TooLarge,
    /// Operation not supported.
    NotSupported,
    /// Address family not supported.
    AddressFamilyNotSupported,
    /// Device probe failed.
    Probe(ProbeError),
    /// I/O operation failed.
    Io(IoError),
    /// Filesystem operation failed.
    Fs(FsError),
    /// Exec error during executable loading.
    Exec(ExecError),
    /// Not a tty.
    NotATty,
    /// Fault error during syscall.
    Fault,
    /// Not an open file descriptor.
    BadFd,
    /// Cannot seek on a pipe.
    SeekPipe,
    /// Broken pipe.
    BrokenPipe,
    /// Operation not permitted.
    NotPermitted,
    /// Buffer is full.
    BufferFull,
    /// Operation would block.
    TryAgain,
    /// No such process.
    NoProcess,
    /// No child process.
    NoChildProcess,
    /// Operation timed out.
    TimedOut,
    /// Value out of range.
    RangeError,
    /// Operation not supported on transport endpoint.
    OpNotSupported,
    /// Interrupted system call.
    Interrupted,
    /// Name too long.
    NameTooLong,
    /// Not a socket.
    NotASocket,
    /// Other error with a static description.
    Other(&'static str),
}

impl From<MapError> for KernelError {
    /// Wraps a [`MapError`] as [`KernelError::MappingError`].
    fn from(err: MapError) -> (res: Self) {
        KernelError::MappingError(err)
    }
}

impl FromSpecImpl<MapError> for KernelError {
    open spec fn obeys_from_spec() -> bool {
        true
    }

    open spec fn from_spec(err: MapError) -> Self {
        KernelError::MappingError(err)
    }
}

impl From<ProbeError> for KernelError {
    /// Wraps a [`ProbeError`] as [`KernelError::Probe`].
    fn from(err: ProbeError) -> (res: Self) {
        KernelError::Probe(err)
    }
}

impl FromSpecImpl<ProbeError> for KernelError {
    open spec fn obeys_from_spec() -> bool {
        true
    }

    open spec fn from_spec(err: ProbeError) -> Self {
        KernelError::Probe(err)
    }
}

impl From<IoError> for KernelError {
    /// Wraps a [`IoError`] as [`KernelError::Io`].
    fn from(err: IoError) -> (res: Self) {
        KernelError::Io(err)
    }
}

impl FromSpecImpl<IoError> for KernelError {
    open spec fn obeys_from_spec() -> bool {
        true
    }

    open spec fn from_spec(err: IoError) -> Self {
        KernelError::Io(err)
    }
}

impl From<FsError> for KernelError {
    /// Wraps a [`FsError`] as [`KernelError::Fs`].
    fn from(err: FsError) -> (res: Self) {
        KernelError::Fs(err)
    }
}

impl FromSpecImpl<FsError> for KernelError {
    open spec fn obeys_from_spec() -> bool {
        true
    }

    open spec fn from_spec(err: FsError) -> Self {
        KernelError::Fs(err)
    }
}

impl From<ExecError> for KernelError {
    /// Wraps a [`ExecError`] as [`KernelError::Exec`].
    fn from(err: ExecError) -> (res: Self) {
        KernelError::Exec(err)
    }
}

impl FromSpecImpl<ExecError> for KernelError {
    open spec fn obeys_from_spec() -> bool {
        true
    }

    open spec fn from_spec(err: ExecError) -> Self {
        KernelError::Exec(err)
    }
}

} // verus!
