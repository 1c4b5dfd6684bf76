use libkernel::driver::CharDevDescriptor;
use libkernel::error::{FsError, KernelError};
use libkernel::fs::cpio::{is_cpio, CpioArchive, CpioFile};
use libkernel::fs::FileType;

/// One "newc" entry, padded so that the next entry starts on a four-byte
/// boundary (the entry itself must start on one).
fn entry_full(
    name: &str,
    mode: u32,
    nlink: u32,
    ino: u32,
    dev: (u32, u32),
    rdev: (u32, u32),
    data: &[u8],
) -> Vec<u8> {
    let mut out = format!(
        "070701{:08x}{:08x}{:08x}{:08x}{:08x}{:08x}{:08x}{:08x}{:08x}{:08x}{:08x}{:08x}{:08x}",
        ino,
        mode,
        1000,
        100,
        nlink,
        1_700_000_000u32,
        data.len(),
        dev.0,
        dev.1,
        rdev.0,
        rdev.1,
        name.len() + 1,
        0
    )
    .into_bytes();
    out.extend_from_slice(name.as_bytes());
    out.push(0);
    while out.len() % 4 != 0 {
        out.push(0);
    }
    out.extend_from_slice(data);
    while out.len() % 4 != 0 {
        out.push(0);
    }
    out
}

fn entry(name: &str, mode: u32, data: &[u8]) -> Vec<u8> {
    entry_full(name, mode, 1, 0, (0, 0), (0, 0), data)
}

fn trailer() -> Vec<u8> {
    entry("TRAILER!!!", 0, b"")
}

fn collect(buf: &[u8]) -> Vec<Result<(String, Vec<u8>, u32), KernelError>> {
    let mut archive = CpioArchive::new(buf);
    let mut out = Vec::new();
    while let Some(item) = archive.next() {
        out.push(item.map(|f| (f.name.to_string(), f.data.to_vec(), f.mode)));
    }
    out
}

#[test]
fn is_cpio_accepts_magic() {
    assert!(is_cpio(b"070701"));
    assert!(is_cpio(b"070701rest of the header"));
    assert!(!is_cpio(b"07070"));
    assert!(!is_cpio(b"070702"));
    assert!(!is_cpio(b""));
    assert!(!is_cpio(b"\x1f\x8b\x08\x00\x00\x00"));
}

#[test]
fn reads_entries_in_order_and_stops_at_trailer() {
    let mut buf = Vec::new();
    buf.extend(entry(".", 0o040755, b""));
    buf.extend(entry("bin", 0o040755, b""));
    buf.extend(entry("bin/sh", 0o100755, b"hello, world"));
    buf.extend(entry("bin/link", 0o120777, b"sh"));
    buf.extend(trailer());
    assert!(is_cpio(&buf));
    let got = collect(&buf);
    assert_eq!(got.len(), 4);
    assert_eq!(got[0], Ok((".".to_string(), vec![], 0o040755)));
    assert_eq!(got[1], Ok(("bin".to_string(), vec![], 0o040755)));
    assert_eq!(got[2], Ok(("bin/sh".to_string(), b"hello, world".to_vec(), 0o100755)));
    assert_eq!(got[3], Ok(("bin/link".to_string(), b"sh".to_vec(), 0o120777)));
}

#[test]
fn finished_reader_stays_finished() {
    let mut buf = entry("a", 0o100644, b"x");
    buf.extend(trailer());
    buf.extend(entry("after-trailer", 0o100644, b"ignored"));
    let mut archive = CpioArchive::new(&buf);
    assert!(matches!(archive.next(), Some(Ok(_))));
    assert!(archive.next().is_none());
    assert!(archive.next().is_none());
    assert!(archive.next().is_none());
}

#[test]
fn all_fields_are_read() {
    let mut buf = entry_full("dev/tty", 0o020620, 2, 42, (8, 1), (4, 64), b"");
    buf.extend(trailer());
    let mut archive = CpioArchive::new(&buf);
    let f = archive.next().unwrap().unwrap();
    assert_eq!(f.name, "dev/tty");
    assert_eq!(f.data, b"");
    assert_eq!(f.mode, 0o020620);
    assert_eq!(f.uid, 1000);
    assert_eq!(f.gid, 100);
    assert_eq!(f.mtime, 1_700_000_000);
    assert_eq!(f.nlink, 2);
    assert_eq!(f.ino, 42);
    assert_eq!(f.dev, (8, 1));
    assert_eq!(f.rdev, (4, 64));
    assert_eq!(
        f.file_type(),
        Some(FileType::CharDevice(CharDevDescriptor { major: 4, minor: 64 }))
    );
    assert_eq!(f.permissions().bits(), 0o620);
    assert!(archive.next().is_none());
}

#[test]
fn padding_follows_name_and_data_lengths() {
    // Names of every length modulo four, data of every length modulo four.
    let names = ["a", "ab", "abc", "abcd", "abcde"];
    let datas: [&[u8]; 5] = [b"", b"1", b"12", b"123", b"1234"];
    let mut buf = Vec::new();
    for (n, d) in names.iter().zip(datas.iter()) {
        buf.extend(entry(n, 0o100644, d));
    }
    buf.extend(trailer());
    let got = collect(&buf);
    assert_eq!(got.len(), 5);
    for (i, (n, d)) in names.iter().zip(datas.iter()).enumerate() {
        assert_eq!(got[i], Ok((n.to_string(), d.to_vec(), 0o100644)));
    }
}

#[test]
fn bad_magic_is_one_error_then_end() {
    let mut buf = entry("a", 0o100644, b"x");
    buf[5] = b'2';
    let mut archive = CpioArchive::new(&buf);
    assert_eq!(archive.next().map(|r| r.map(|_| ())), Some(Err(KernelError::Fs(FsError::CpioError))));
    assert!(archive.next().is_none());
    assert!(archive.next().is_none());
}

#[test]
fn error_after_good_entries() {
    let mut buf = entry("good", 0o100644, b"data");
    let mut bad = entry("bad", 0o100644, b"data");
    bad[14] = b'g'; // a mode digit that is not hexadecimal
    buf.extend(bad);
    buf.extend(trailer());
    let got = collect(&buf);
    assert_eq!(got.len(), 2);
    assert_eq!(got[0], Ok(("good".to_string(), b"data".to_vec(), 0o100644)));
    assert_eq!(got[1], Err(KernelError::Fs(FsError::CpioError)));
}

#[test]
fn truncated_archives_are_errors() {
    let full = entry("file", 0o100644, b"0123456789");
    // Cut in the header, in the name, and in the data.
    for cut in [0usize, 50, 109, 112, 116, 120] {
        let buf = &full[..cut];
        let got = collect(buf);
        assert_eq!(got, vec![Err(KernelError::Fs(FsError::CpioError))], "cut at {cut}");
    }
}

#[test]
fn empty_archive_is_an_error() {
    let got = collect(b"");
    assert_eq!(got, vec![Err(KernelError::Fs(FsError::CpioError))]);
}

#[test]
fn name_must_end_in_nul() {
    let mut buf = entry("abc", 0o100644, b"");
    // The name "abc" and its NUL sit at 110..114; drop the NUL.
    buf[113] = b'd';
    assert_eq!(collect(&buf), vec![Err(KernelError::Fs(FsError::CpioError))]);
}

#[test]
fn empty_name_is_an_error() {
    let mut buf = entry("a", 0o100644, b"");
    // namesize 0
    buf[94..102].copy_from_slice(b"00000000");
    assert_eq!(collect(&buf), vec![Err(KernelError::Fs(FsError::CpioError))]);
}

#[test]
fn name_must_be_utf8() {
    let mut buf = entry("ab", 0o100644, b"");
    buf[110] = 0xff;
    assert_eq!(collect(&buf), vec![Err(KernelError::Fs(FsError::CpioError))]);
    let mut ok = entry("h\u{e9}", 0o100644, b"");
    ok.extend(trailer());
    assert_eq!(collect(&ok), vec![Ok(("h\u{e9}".to_string(), vec![], 0o100644))]);
}

#[test]
fn hex_fields_accept_upper_case_and_plus() {
    let mut buf = entry("a", 0o100644, b"");
    // mode field as upper-case digits, uid with a leading '+'
    buf[14..22].copy_from_slice(b"000081A4");
    buf[22..30].copy_from_slice(b"+00003E8");
    buf.extend(trailer());
    let mut archive = CpioArchive::new(&buf);
    let f = archive.next().unwrap().unwrap();
    assert_eq!(f.mode, 0o100644);
    assert_eq!(f.uid, 1000);
}

#[test]
fn hex_fields_reject_minus_and_spaces() {
    for field in [b"-0000001", b" 0000001", b"0000000x"] {
        let mut buf = entry("a", 0o100644, b"");
        buf[22..30].copy_from_slice(field);
        assert_eq!(collect(&buf), vec![Err(KernelError::Fs(FsError::CpioError))]);
    }
}

#[test]
fn largest_hex_field() {
    let mut buf = entry("a", 0o100644, b"");
    buf[46..54].copy_from_slice(b"ffffffff");
    buf.extend(trailer());
    let mut archive = CpioArchive::new(&buf);
    assert_eq!(archive.next().unwrap().unwrap().mtime, u32::MAX);
}

#[test]
fn data_running_past_the_end_is_an_error() {
    let mut buf = entry("a", 0o100644, b"abcd");
    // claim 0x100 bytes of data
    buf[54..62].copy_from_slice(b"00000100");
    assert_eq!(collect(&buf), vec![Err(KernelError::Fs(FsError::CpioError))]);
}

#[test]
fn file_type_of_each_mode() {
    let mk = |mode: u32| CpioFile {
        name: "x",
        data: b"",
        mode,
        uid: 0,
        gid: 0,
        mtime: 0,
        nlink: 1,
        ino: 1,
        dev: (0, 0),
        rdev: (3, 7),
    };
    let d = CharDevDescriptor { major: 3, minor: 7 };
    assert_eq!(mk(0o100644).file_type(), Some(FileType::File));
    assert_eq!(mk(0o040755).file_type(), Some(FileType::Directory));
    assert_eq!(mk(0o120777).file_type(), Some(FileType::Symlink));
    assert_eq!(mk(0o020666).file_type(), Some(FileType::CharDevice(d)));
    assert_eq!(mk(0o060660).file_type(), Some(FileType::BlockDevice(d)));
    assert_eq!(mk(0o010644).file_type(), Some(FileType::Fifo));
    assert_eq!(mk(0o140755).file_type(), None);
    assert_eq!(mk(0o000644).file_type(), None);
    assert_eq!(mk(0o170000).file_type(), None);
    assert_eq!(mk(0o104755).permissions().bits(), 0o4755);
    assert_eq!(mk(0o177777).permissions().bits(), 0o7777);
}

#[test]
fn mode_bits_round_trip() {
    let d = CharDevDescriptor { major: 1, minor: 2 };
    for t in [
        FileType::File,
        FileType::Directory,
        FileType::Symlink,
        FileType::CharDevice(d),
        FileType::BlockDevice(d),
        FileType::Fifo,
    ] {
        let mode = u32::from(t) | 0o644;
        let f = CpioFile {
            name: "x",
            data: b"",
            mode,
            uid: 0,
            gid: 0,
            mtime: 0,
            nlink: 1,
            ino: 1,
            dev: (0, 0),
            rdev: (1, 2),
        };
        assert_eq!(f.file_type(), Some(t));
        assert_eq!(f.permissions().bits(), 0o644);
    }
}

#[test]
fn smallest_entries_take_112_bytes() {
    let one = entry("a", 0o100644, b"");
    assert_eq!(one.len(), 112);
    let mut buf = Vec::new();
    for _ in 0..3 {
        buf.extend(entry("a", 0o100644, b""));
    }
    buf.extend(trailer());
    assert_eq!(collect(&buf).len(), 3);
}
