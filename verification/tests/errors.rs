use libkernel::error::{ExecError, FsError, IoError, KernelError, MapError, ProbeError};

#[test]
fn domain_errors_convert_into_kernel_errors() {
    assert_eq!(KernelError::from(MapError::PhysNotAligned), KernelError::MappingError(MapError::PhysNotAligned));
    assert_eq!(KernelError::from(ProbeError::Deferred), KernelError::Probe(ProbeError::Deferred));
    assert_eq!(KernelError::from(IoError::OutOfBounds), KernelError::Io(IoError::OutOfBounds));
    assert_eq!(KernelError::from(FsError::CpioError), KernelError::Fs(FsError::CpioError));
    assert_eq!(KernelError::from(ExecError::InvalidElfFormat), KernelError::Exec(ExecError::InvalidElfFormat));
    let e: KernelError = FsError::NotFound.into();
    assert_eq!(e, KernelError::Fs(FsError::NotFound));
    assert_eq!(KernelError::Other("x"), KernelError::Other("x"));
}
