//! Reader for cpio archives in the "newc" format (magic `070701`), the
//! format of an initramfs.
//!
//! An archive is a run of entries. Each entry is a 110-byte ASCII header of
//! fourteen fields (a six-byte magic, then thirteen eight-digit hexadecimal
//! numbers), the NUL-terminated name, padding up to a multiple of four bytes,
//! the file data, and padding again. The entry named `TRAILER!!!` ends the
//! archive.
use crate::driver::CharDevDescriptor;
use crate::error::{FsError, KernelError};
use crate::fs::attr::FilePermissions;
use crate::fs::FileType;
use vstd::prelude::*;
use vstd::string::StringSliceAdditionalSpecFns;
use vstd::utf8::valid_utf8;

verus! {

/// Length of a "newc" header.
pub const CPIO_HEADER_LEN: usize = 110;

// Offsets of the header's fields.
const OFF_INO: usize = 6;
const OFF_MODE: usize = 14;
const OFF_UID: usize = 22;
const OFF_GID: usize = 30;
const OFF_NLINK: usize = 38;
const OFF_MTIME: usize = 46;
const OFF_FILESIZE: usize = 54;
const OFF_DEVMAJOR: usize = 62;
const OFF_DEVMINOR: usize = 70;
const OFF_RDEVMAJOR: usize = 78;
const OFF_RDEVMINOR: usize = 86;
const OFF_NAMESIZE: usize = 94;

// ---------------------------------------------------------------------------
// Specification
// ---------------------------------------------------------------------------

/// The magic that opens every "newc" header: the ASCII text `070701`.
pub open spec fn cpio_magic() -> Seq<u8> {
    seq![0x30u8, 0x37u8, 0x30u8, 0x37u8, 0x30u8, 0x31u8]
}

/// The name of the entry that ends an archive: the ASCII text `TRAILER!!!`.
pub open spec fn cpio_trailer() -> Seq<u8> {
    seq![0x54u8, 0x52u8, 0x41u8, 0x49u8, 0x4cu8, 0x45u8, 0x52u8, 0x21u8, 0x21u8, 0x21u8]
}

/// The value of one hexadecimal digit (`0`-`9`, `a`-`f`, `A`-`F`).
pub open spec fn hex_digit_value(b: u8) -> Option<nat> {
    if 0x30 <= b <= 0x39 {
        Some((b - 0x30) as nat)
    } else if 0x61 <= b <= 0x66 {
        Some((b - 0x61 + 10) as nat)
    } else if 0x41 <= b <= 0x46 {
        Some((b - 0x41 + 10) as nat)
    } else {
        None
    }
}

/// The number that a run of hexadecimal digits writes, most significant
/// digit first; `None` when some byte is not a hexadecimal digit.
pub open spec fn hex_value(s: Seq<u8>) -> Option<nat>
    decreases s.len(),
{
    if s.len() == 0 {
        Some(0)
    } else {
        match (hex_value(s.drop_last()), hex_digit_value(s.last())) {
            (Some(v), Some(d)) => Some(v * 16 + d),
            _ => None,
        }
    }
}

/// What a numeric header field holds, read as `u32::from_str_radix(_, 16)`
/// reads text: an optional `+`, then at least one hexadecimal digit, with a
/// value that fits in a `u32`.
pub open spec fn spec_parse_hex(field: Seq<u8>) -> Option<u32> {
    let digits = if field.len() > 0 && field[0] == 0x2b {
        field.drop_first()
    } else {
        field
    };
    if digits.len() == 0 {
        None
    } else {
        match hex_value(digits) {
            Some(v) => if v <= u32::MAX {
                Some(v as u32)
            } else {
                None
            },
            None => None,
        }
    }
}

/// `x` rounded up to a multiple of four, or `None` where `x + 3` does not
/// fit in a `usize`.
pub open spec fn spec_align4(x: int) -> Option<int> {
    if x + 3 <= usize::MAX {
        Some((x + 3) - (x + 3) % 4)
    } else {
        None
    }
}

/// The eight bytes of the numeric field at `off` in a header.
pub open spec fn header_field(h: Seq<u8>, off: int) -> Seq<u8> {
    h.subrange(off, off + 8)
}

/// The numeric fields of a header.
pub struct HeaderFields {
    pub ino: u32,
    pub mode: u32,
    pub uid: u32,
    pub gid: u32,
    pub nlink: u32,
    pub mtime: u32,
    pub filesize: u32,
    pub devmajor: u32,
    pub devminor: u32,
    pub rdevmajor: u32,
    pub rdevminor: u32,
    pub namesize: u32,
}

/// The fields of a 110-byte header: `Some` exactly when the header starts
/// with the magic and each of its twelve used numeric fields parses. The
/// last field, the checksum, is not read.
pub open spec fn spec_parse_header(h: Seq<u8>) -> Option<HeaderFields> {
    if h.subrange(0, 6) != cpio_magic() {
        None
    } else {
        match (
            spec_parse_hex(header_field(h, 6)),
            spec_parse_hex(header_field(h, 14)),
            spec_parse_hex(header_field(h, 22)),
            spec_parse_hex(header_field(h, 30)),
            spec_parse_hex(header_field(h, 38)),
            spec_parse_hex(header_field(h, 46)),
        ) {
            (Some(ino), Some(mode), Some(uid), Some(gid), Some(nlink), Some(mtime)) => {
                match (
                    spec_parse_hex(header_field(h, 54)),
                    spec_parse_hex(header_field(h, 62)),
                    spec_parse_hex(header_field(h, 70)),
                    spec_parse_hex(header_field(h, 78)),
                    spec_parse_hex(header_field(h, 86)),
                    spec_parse_hex(header_field(h, 94)),
                ) {
                    (
                        Some(filesize),
                        Some(devmajor),
                        Some(devminor),
                        Some(rdevmajor),
                        Some(rdevminor),
                        Some(namesize),
                    ) => Some(
                        HeaderFields {
                            ino,
                            mode,
                            uid,
                            gid,
                            nlink,
                            mtime,
                            filesize,
                            devmajor,
                            devminor,
                            rdevmajor,
                            rdevminor,
                            namesize,
                        },
                    ),
                    _ => None,
                }
            },
            _ => None,
        }
    }
}

/// An entry of an archive as a mathematical value.
pub struct SpecCpioFile {
    /// The bytes of the name, without its terminating NUL.
    pub name: Seq<u8>,
    pub data: Seq<u8>,
    pub mode: u32,
    pub uid: u32,
    pub gid: u32,
    pub mtime: u32,
    pub nlink: u32,
    pub ino: u32,
    pub dev: (u32, u32),
    pub rdev: (u32, u32),
}

/// The entry whose header starts at `pos` in `data`, and the position where
/// the next header starts; `None` where the entry is malformed: the header or
/// the name or the data runs past the end, the magic is wrong, a field does
/// not parse, the name is empty, does not end in NUL or is not UTF-8, or a
/// padded offset does not fit in a `usize`.
pub open spec fn spec_parse_entry(data: Seq<u8>, pos: int) -> Option<(SpecCpioFile, int)> {
    let header_end = pos + CPIO_HEADER_LEN;
    if !(0 <= pos && header_end <= data.len()) {
        None
    } else {
        match spec_parse_header(data.subrange(pos, header_end)) {
            None => None,
            Some(h) => {
                let name_end = header_end + h.namesize;
                if name_end > data.len() {
                    None
                } else {
                    let name_buf = data.subrange(header_end, name_end);
                    if name_buf.len() == 0 || name_buf.last() != 0 || !valid_utf8(
                        name_buf.drop_last(),
                    ) {
                        None
                    } else {
                        match spec_align4(name_end) {
                            None => None,
                            Some(data_start) => {
                                let data_end = data_start + h.filesize;
                                if data_end > data.len() {
                                    None
                                } else {
                                    match spec_align4(data_end) {
                                        None => None,
                                        Some(next) => Some(
                                            (
                                                SpecCpioFile {
                                                    name: name_buf.drop_last(),
                                                    data: data.subrange(data_start, data_end),
                                                    mode: h.mode,
                                                    uid: h.uid,
                                                    gid: h.gid,
                                                    mtime: h.mtime,
                                                    nlink: h.nlink,
                                                    ino: h.ino,
                                                    dev: (h.devmajor, h.devminor),
                                                    rdev: (h.rdevmajor, h.rdevminor),
                                                },
                                                next,
                                            ),
                                        ),
                                    }
                                }
                            },
                        }
                    }
                }
            },
        }
    }
}

/// The state of a reader: the archive, where the next header starts, and
/// whether the reader has finished.
pub struct ArchiveState {
    pub data: Seq<u8>,
    pub pos: int,
    pub done: bool,
}

/// What one step of a reader yields.
pub enum NextOutcome {
    /// The archive has ended: at its trailer, after an error, or earlier.
    End,
    /// The next entry.
    Entry(SpecCpioFile),
    /// The next entry is malformed.
    Malformed,
}

/// One step of a reader: a finished reader yields `End` and stays as it is;
/// otherwise a malformed entry yields `Malformed` and finishes the reader,
/// the trailer yields `End` and finishes it, and any other entry is yielded
/// and the reader moves past it.
pub open spec fn spec_next(s: ArchiveState) -> (NextOutcome, ArchiveState) {
    if s.done {
        (NextOutcome::End, s)
    } else {
        match spec_parse_entry(s.data, s.pos) {
            None => (NextOutcome::Malformed, ArchiveState { done: true, ..s }),
            Some((file, next)) => if file.name == cpio_trailer() {
                (NextOutcome::End, ArchiveState { pos: next, done: true, ..s })
            } else {
                (NextOutcome::Entry(file), ArchiveState { pos: next, ..s })
            },
        }
    }
}

/// The file type that a mode's `S_IFMT` bits name, with the device numbers
/// `rdev` for a device; `None` for a socket or an unknown type.
pub open spec fn spec_file_type(mode: u32, rdev: (u32, u32)) -> Option<FileType> {
    let d = CharDevDescriptor { major: rdev.0 as u64, minor: rdev.1 as u64 };
    let t = mode & 0o170000u32;
    if t == 0o100000u32 {
        Some(FileType::File)
    } else if t == 0o040000u32 {
        Some(FileType::Directory)
    } else if t == 0o120000u32 {
        Some(FileType::Symlink)
    } else if t == 0o020000u32 {
        Some(FileType::CharDevice(d))
    } else if t == 0o060000u32 {
        Some(FileType::BlockDevice(d))
    } else if t == 0o010000u32 {
        Some(FileType::Fifo)
    } else {
        None
    }
}

/// The permission bits of a mode.
pub open spec fn spec_permission_bits(mode: u32) -> u16 {
    (mode & 0o7777u32) as u16
}

// ---------------------------------------------------------------------------
// Lemmas
// ---------------------------------------------------------------------------

/// Sixteen to the power `k`.
pub open spec fn pow16(k: nat) -> nat
    decreases k,
{
    if k == 0 {
        1
    } else {
        16 * pow16((k - 1) as nat)
    }
}

proof fn lemma_pow16_monotone(i: nat, j: nat)
    requires
        i <= j,
    ensures
        pow16(i) <= pow16(j),
    decreases j - i,
{
    if i < j {
        lemma_pow16_monotone(i, (j - 1) as nat);
    }
}

proof fn lemma_pow16_8()
    ensures
        pow16(8) == 0x1_0000_0000,
{
    reveal_with_fuel(pow16, 9);
}

proof fn lemma_hex_value_none_extends(s: Seq<u8>, k: int)
    requires
        0 <= k <= s.len(),
        hex_value(s.take(k)) is None,
    ensures
        hex_value(s) is None,
    decreases s.len(),
{
    if k < s.len() {
        assert(s.drop_last().take(k) =~= s.take(k));
        lemma_hex_value_none_extends(s.drop_last(), k);
    } else {
        assert(s.take(k) =~= s);
    }
}

// ---------------------------------------------------------------------------
// Helpers
// ---------------------------------------------------------------------------

/// Calls `core::str::from_utf8`. Its documentation states that it succeeds
/// exactly on byte slices that are valid UTF-8, and that the string it gives
/// back is made of those same bytes; that is all the contract claims.
#[verifier::external_body]
pub(crate) fn str_from_utf8<'b>(bytes: &'b [u8]) -> (res: Option<&'b str>)
    ensures
        res is Some <==> valid_utf8(bytes@),
        res matches Some(s) ==> s.spec_bytes() == bytes@,
{
    core::str::from_utf8(bytes).ok()
}

fn cpio_error() -> (err: KernelError)
    ensures
        err == KernelError::Fs(FsError::CpioError),
{
    KernelError::Fs(FsError::CpioError)
}

/// The value of a hexadecimal digit, or `None`.
fn hex_digit(b: u8) -> (res: Option<u32>)
    ensures
        match hex_digit_value(b) {
            Some(d) => res == Some(d as u32),
            None => res is None,
        },
{
    if 0x30 <= b && b <= 0x39 {
        Some((b - 0x30) as u32)
    } else if 0x61 <= b && b <= 0x66 {
        Some((b - 0x61 + 10) as u32)
    } else if 0x41 <= b && b <= 0x46 {
        Some((b - 0x41 + 10) as u32)
    } else {
        None
    }
}

/// Parses a numeric header field (at most eight bytes).
fn parse_hex(field: &[u8]) -> (res: Result<u32, KernelError>)
    requires
        field@.len() <= 8,
    ensures
        match spec_parse_hex(field@) {
            Some(v) => res == Ok::<u32, KernelError>(v),
            None => res == Err::<u32, KernelError>(KernelError::Fs(FsError::CpioError)),
        },
{
    let len = field.len();
    let start: usize = if len > 0 && field[0] == 0x2b {
        1
    } else {
        0
    };
    let ghost digits = field@.subrange(start as int, len as int);
    assert(start == 1 ==> digits =~= field@.drop_first());
    assert(start == 0 ==> digits =~= field@);
    if start >= len {
        return Err(cpio_error());
    }
    let mut acc: u64 = 0;
    let mut i: usize = start;
    assert(field@.subrange(start as int, start as int) =~= Seq::<u8>::empty());
    while i < len
        invariant
            len == field@.len() <= 8,
            start <= 1,
            start <= i <= len,
            digits == field@.subrange(start as int, len as int),
            start == 1 ==> digits == field@.drop_first() && field@[0] == 0x2b,
            start == 0 ==> digits == field@ && !(len > 0 && field@[0] == 0x2b),
            hex_value(field@.subrange(start as int, i as int)) == Some(acc as nat),
            acc < pow16((i - start) as nat),
        decreases len - i,
    {
        proof {
            lemma_pow16_monotone((i - start) as nat, 8);
            lemma_pow16_8();
        }
        let ghost prefix = field@.subrange(start as int, i + 1);
        assert(prefix.drop_last() =~= field@.subrange(start as int, i as int));
        assert(prefix.last() == field@[i as int]);
        match hex_digit(field[i]) {
            None => {
                proof {
                    assert(digits.take((i + 1 - start) as int) =~= prefix);
                    lemma_hex_value_none_extends(digits, (i + 1 - start) as int);
                }
                return Err(cpio_error());
            },
            Some(d) => {
                assert(acc * 16 + d < 16 * pow16((i - start) as nat)) by (nonlinear_arith)
                    requires
                        acc < pow16((i - start) as nat),
                        d < 16,
                ;
                acc = acc * 16 + d as u64;
                i = i + 1;
                assert(pow16((i - start) as nat) == 16 * pow16((i - 1 - start) as nat));
            },
        }
    }
    assert(field@.subrange(start as int, len as int) == digits);
    proof {
        lemma_pow16_monotone((len - start) as nat, 8);
        lemma_pow16_8();
    }
    Ok(acc as u32)
}

/// Rounds `offset` up to a multiple of four.
fn align4(offset: usize) -> (res: Result<usize, KernelError>)
    ensures
        match spec_align4(offset as int) {
            Some(v) => res == Ok::<usize, KernelError>(v as usize),
            None => res == Err::<usize, KernelError>(KernelError::Fs(FsError::CpioError)),
        },
{
    match offset.checked_add(3) {
        None => Err(cpio_error()),
        Some(x) => {
            let r = x & !3usize;
            assert(x & !3usize == x - x % 4) by (bit_vector);
            Ok(r)
        },
    }
}

/// Returns `true` if the buffer starts with a cpio header.
pub fn is_cpio(buf: &[u8]) -> (res: bool)
    ensures
        res == (buf@.len() >= 6 && buf@.subrange(0, 6) == cpio_magic()),
{
    if buf.len() < 6 {
        return false;
    }
    let r = buf[0] == 0x30 && buf[1] == 0x37 && buf[2] == 0x30 && buf[3] == 0x37 && buf[4] == 0x30
        && buf[5] == 0x31;
    assert(r ==> buf@.subrange(0, 6) =~= cpio_magic());
    assert(buf@.subrange(0, 6) == cpio_magic() ==> buf@.subrange(0, 6)[0] == cpio_magic()[0]
        && buf@.subrange(0, 6)[1] == cpio_magic()[1] && buf@.subrange(0, 6)[2] == cpio_magic()[2]
        && buf@.subrange(0, 6)[3] == cpio_magic()[3] && buf@.subrange(0, 6)[4] == cpio_magic()[4]
        && buf@.subrange(0, 6)[5] == cpio_magic()[5]);
    r
}

// ---------------------------------------------------------------------------
// Headers
// ---------------------------------------------------------------------------

/// The numeric fields of a parsed header.
struct Header {
    ino: u32,
    mode: u32,
    uid: u32,
    gid: u32,
    nlink: u32,
    mtime: u32,
    filesize: u32,
    devmajor: u32,
    devminor: u32,
    rdevmajor: u32,
    rdevminor: u32,
    namesize: u32,
}

impl Header {
    closed spec fn spec(&self) -> HeaderFields {
        HeaderFields {
            ino: self.ino,
            mode: self.mode,
            uid: self.uid,
            gid: self.gid,
            nlink: self.nlink,
            mtime: self.mtime,
            filesize: self.filesize,
            devmajor: self.devmajor,
            devminor: self.devminor,
            rdevmajor: self.rdevmajor,
            rdevminor: self.rdevminor,
            namesize: self.namesize,
        }
    }
}

/// Parses the numeric field at `off` of a header.
fn header_hex(h: &[u8], off: usize) -> (res: Result<u32, KernelError>)
    requires
        off + 8 <= h.len(),
    ensures
        match spec_parse_hex(header_field(h@, off as int)) {
            Some(v) => res == Ok::<u32, KernelError>(v),
            None => res == Err::<u32, KernelError>(KernelError::Fs(FsError::CpioError)),
        },
{
    parse_hex(&h[off..off + 8])
}

/// Parses a 110-byte header.
fn parse_header(h: &[u8]) -> (res: Result<Header, KernelError>)
    requires
        h@.len() == CPIO_HEADER_LEN,
    ensures
        match spec_parse_header(h@) {
            Some(f) => res matches Ok(x) && x.spec() == f,
            None => res == Err::<Header, KernelError>(KernelError::Fs(FsError::CpioError)),
        },
{
    if !is_cpio(h) {
        return Err(cpio_error());
    }
    let ino = header_hex(h, OFF_INO)?;
    let mode = header_hex(h, OFF_MODE)?;
    let uid = header_hex(h, OFF_UID)?;
    let gid = header_hex(h, OFF_GID)?;
    let nlink = header_hex(h, OFF_NLINK)?;
    let mtime = header_hex(h, OFF_MTIME)?;
    let filesize = header_hex(h, OFF_FILESIZE)?;
    let devmajor = header_hex(h, OFF_DEVMAJOR)?;
    let devminor = header_hex(h, OFF_DEVMINOR)?;
    let rdevmajor = header_hex(h, OFF_RDEVMAJOR)?;
    let rdevminor = header_hex(h, OFF_RDEVMINOR)?;
    let namesize = header_hex(h, OFF_NAMESIZE)?;
    Ok(
        Header {
            ino,
            mode,
            uid,
            gid,
            nlink,
            mtime,
            filesize,
            devmajor,
            devminor,
            rdevmajor,
            rdevminor,
            namesize,
        },
    )
}

// ---------------------------------------------------------------------------
// Archive reader
// ---------------------------------------------------------------------------

/// A reader over the entries of a cpio archive held in memory.
pub struct CpioArchive<'a> {
    data: &'a [u8],
    pos: usize,
    done: bool,
}

/// A file in the cpio archive. Also used to represent the terminator.
pub struct CpioFile<'a> {
    pub name: &'a str,
    pub data: &'a [u8],
    pub mode: u32,
    pub uid: u32,
    pub gid: u32,
    pub mtime: u32,
    pub nlink: u32,
    pub ino: u32,
    pub dev: (u32, u32),
    pub rdev: (u32, u32),
}

impl<'a> View for CpioArchive<'a> {
    type V = ArchiveState;

    closed spec fn view(&self) -> ArchiveState {
        ArchiveState { data: self.data@, pos: self.pos as int, done: self.done }
    }
}

impl<'a> View for CpioFile<'a> {
    type V = SpecCpioFile;

    open spec fn view(&self) -> SpecCpioFile {
        SpecCpioFile {
            name: self.name.spec_bytes(),
            data: self.data@,
            mode: self.mode,
            uid: self.uid,
            gid: self.gid,
            mtime: self.mtime,
            nlink: self.nlink,
            ino: self.ino,
            dev: self.dev,
            rdev: self.rdev,
        }
    }
}

/// Whether a name is the trailer's.
fn is_trailer(name: &[u8]) -> (res: bool)
    ensures
        res == (name@ == cpio_trailer()),
{
    let r = name.len() == 10 && name[0] == 0x54 && name[1] == 0x52 && name[2] == 0x41 && name[3]
        == 0x49 && name[4] == 0x4c && name[5] == 0x45 && name[6] == 0x52 && name[7] == 0x21
        && name[8] == 0x21 && name[9] == 0x21;
    assert(r ==> name@ =~= cpio_trailer());
    assert(name@ == cpio_trailer() ==> name@[0] == cpio_trailer()[0] && name@[1]
        == cpio_trailer()[1] && name@[2] == cpio_trailer()[2] && name@[3] == cpio_trailer()[3]
        && name@[4] == cpio_trailer()[4] && name@[5] == cpio_trailer()[5] && name@[6]
        == cpio_trailer()[6] && name@[7] == cpio_trailer()[7] && name@[8] == cpio_trailer()[8]
        && name@[9] == cpio_trailer()[9]);
    r
}

impl<'a> CpioArchive<'a> {
    /// A reader positioned at the start of `buf`.
    pub fn new(buf: &'a [u8]) -> (res: Self)
        ensures
            res@ == (ArchiveState { data: buf@, pos: 0, done: false }),
    {
        Self { data: buf, pos: 0, done: false }
    }

    /// Parses the entry whose header starts at the current position, and
    /// gives it with the position of the next header.
    fn get_next_file(&self) -> (res: Result<(CpioFile<'a>, usize), KernelError>)
        ensures
            match spec_parse_entry(self@.data, self@.pos) {
                Some((f, next)) => res matches Ok((file, n)) && file@ == f && n == next,
                None => res == Err::<(CpioFile<'a>, usize), KernelError>(
                    KernelError::Fs(FsError::CpioError),
                ),
            },
    {
        let data = self.data;
        let ghost d = data@;
        let pos = self.pos;
        let header_end = match pos.checked_add(CPIO_HEADER_LEN) {
            Some(e) => e,
            None => return Err(cpio_error()),
        };
        if header_end > data.len() {
            return Err(cpio_error());
        }
        let header = parse_header(&data[pos..header_end])?;
        let fnamesize = header.namesize as usize;
        let fsize = header.filesize as usize;

        let name_end = match header_end.checked_add(fnamesize) {
            Some(e) => e,
            None => return Err(cpio_error()),
        };
        if name_end > data.len() {
            return Err(cpio_error());
        }
        let name_buf = &data[header_end..name_end];
        let nlen = name_buf.len();
        if nlen == 0 || name_buf[nlen - 1] != 0 {
            return Err(cpio_error());
        }
        let name_bytes = &name_buf[0..nlen - 1];
        assert(name_bytes@ =~= name_buf@.drop_last());
        let name = match str_from_utf8(name_bytes) {
            Some(s) => s,
            None => return Err(cpio_error()),
        };

        // Entries are padded to four-byte boundaries.
        let data_start = align4(name_end)?;
        let data_end = match data_start.checked_add(fsize) {
            Some(e) => e,
            None => return Err(cpio_error()),
        };
        if data_end > data.len() {
            return Err(cpio_error());
        }
        let file_data = &data[data_start..data_end];
        let next = align4(data_end)?;

        Ok(
            (
                CpioFile {
                    name,
                    data: file_data,
                    mode: header.mode,
                    uid: header.uid,
                    gid: header.gid,
                    mtime: header.mtime,
                    nlink: header.nlink,
                    ino: header.ino,
                    dev: (header.devmajor, header.devminor),
                    rdev: (header.rdevmajor, header.rdevminor),
                },
                next,
            ),
        )
    }

    /// Reads the next entry of the archive. Gives `None` at the trailer and
    /// on every later call; a malformed entry gives one error, and `None`
    /// from then on.
    pub fn next(&mut self) -> (res: Option<Result<CpioFile<'a>, KernelError>>)
        ensures
            final(self)@ == spec_next(old(self)@).1,
            match spec_next(old(self)@).0 {
                NextOutcome::End => res is None,
                NextOutcome::Malformed => res == Some(
                    Err::<CpioFile<'a>, KernelError>(KernelError::Fs(FsError::CpioError)),
                ),
                NextOutcome::Entry(f) => res matches Some(Ok(file)) && file@ == f,
            },
    {
        if self.done {
            return None;
        }
        match self.get_next_file() {
            Ok((file, next)) => {
                self.pos = next;
                if is_trailer(file.name.as_bytes()) {
                    self.done = true;
                    None
                } else {
                    Some(Ok(file))
                }
            },
            Err(e) => {
                self.done = true;
                Some(Err(e))
            },
        }
    }
}

impl<'a> CpioFile<'a> {
    /// Get inode type (e.g. file, dir, block device, etc...)
    pub fn file_type(&self) -> (res: Option<FileType>)
        ensures
            res == spec_file_type(self.mode, self.rdev),
    {
        let rdev = CharDevDescriptor { major: self.rdev.0 as u64, minor: self.rdev.1 as u64 };
        let t = self.mode & 0o170000u32;
        if t == 0o100000u32 {
            Some(FileType::File)
        } else if t == 0o040000u32 {
            Some(FileType::Directory)
        } else if t == 0o120000u32 {
            Some(FileType::Symlink)
        } else if t == 0o020000u32 {
            Some(FileType::CharDevice(rdev))
        } else if t == 0o060000u32 {
            Some(FileType::BlockDevice(rdev))
        } else if t == 0o010000u32 {
            Some(FileType::Fifo)
        } else {
            None
        }
    }

    /// Get permission bits.
    pub fn permissions(&self) -> (res: FilePermissions)
        ensures
            res@ == spec_permission_bits(self.mode),
            res@ as u32 == self.mode & 0o7777u32,
    {
        let m = self.mode;
        assert(m & 0o7777u32 <= 0o7777u32) by (bit_vector);
        FilePermissions::from_bits_retain((m & 0o7777u32) as u16)
    }
}

// ---------------------------------------------------------------------------
// Laws
// ---------------------------------------------------------------------------

/// A reader that has ended stays ended: after a step that yields the end of
/// the archive or a malformed entry, every later step yields the end and
/// leaves the reader as it is.
pub proof fn lemma_end_is_final(s: ArchiveState)
    requires
        !(spec_next(s).0 is Entry),
    ensures
        spec_next(spec_next(s).1).0 is End,
        spec_next(spec_next(s).1).1 == spec_next(s).1,
{
}

/// Each entry takes at least 112 bytes (a 110-byte header and a name of at
/// least one byte, padded), and the next header starts on a four-byte
/// boundary no further than three bytes past the end of the archive. So a
/// reader moves forward at every entry and ends after at most
/// `data.len() / 112 + 1` steps.
pub proof fn lemma_entry_advances(data: Seq<u8>, pos: int)
    requires
        spec_parse_entry(data, pos) is Some,
    ensures
        ({
            let next = spec_parse_entry(data, pos).unwrap().1;
            &&& next >= pos + 111
            &&& pos % 4 == 0 ==> next >= pos + 112
            &&& next % 4 == 0
            &&& next <= data.len() + 3
        }),
{
}

/// A reader's position stays on a four-byte boundary and only grows, and
/// its archive never changes.
pub proof fn lemma_step_keeps_alignment(s: ArchiveState)
    requires
        s.pos % 4 == 0,
    ensures
        spec_next(s).1.pos % 4 == 0,
        spec_next(s).1.pos >= s.pos,
        spec_next(s).1.data == s.data,
        spec_next(s).0 is Entry ==> spec_next(s).1.pos >= s.pos + 112,
{
    if !s.done && spec_parse_entry(s.data, s.pos) is Some {
        lemma_entry_advances(s.data, s.pos);
    }
}

/// An archive whose first entry parses starts with the cpio magic, so
/// `is_cpio` accepts it.
pub proof fn lemma_parsed_archive_is_cpio(data: Seq<u8>)
    requires
        spec_parse_entry(data, 0) is Some,
    ensures
        data.len() >= 6 && data.subrange(0, 6) == cpio_magic(),
{
    let h = data.subrange(0, 110);
    assert(h.subrange(0, 6) =~= data.subrange(0, 6));
}

/// The file type read from a mode is the one whose `S_IFMT` bits the mode
/// holds: converting the type back to a number gives `mode & 0o170000`.
pub proof fn lemma_file_type_mode_bits(mode: u32, rdev: (u32, u32))
    ensures
        spec_file_type(mode, rdev) matches Some(t) ==> crate::fs::file_type_mode_bits(t) == mode
            & 0o170000u32,
{
}

/// A mode made of a type's `S_IFMT` bits and permission bits reads back as
/// that type and those permissions, for every type but a socket (which an
/// archive's reader does not recognize); a device gets the numbers `rdev`.
pub proof fn lemma_mode_roundtrip(t: FileType, perms: u32, rdev: (u32, u32))
    requires
        !(t is Socket),
        perms <= 0o7777,
    ensures
        ({
            let mode = crate::fs::file_type_mode_bits(t) | perms;
            let d = CharDevDescriptor { major: rdev.0 as u64, minor: rdev.1 as u64 };
            &&& spec_permission_bits(mode) == perms
            &&& spec_file_type(mode, rdev) == Some(
                match t {
                    FileType::CharDevice(_) => FileType::CharDevice(d),
                    FileType::BlockDevice(_) => FileType::BlockDevice(d),
                    _ => t,
                },
            )
        }),
{
    let b = crate::fs::file_type_mode_bits(t);
    assert(b == 0o040000u32 || b == 0o020000u32 || b == 0o060000u32 || b == 0o100000u32 || b
        == 0o010000u32 || b == 0o120000u32);
    assert(perms <= 0o7777u32 ==> (0o040000u32 | perms) & 0o170000u32 == 0o040000u32 && (0o040000u32
        | perms) & 0o7777u32 == perms) by (bit_vector);
    assert(perms <= 0o7777u32 ==> (0o020000u32 | perms) & 0o170000u32 == 0o020000u32 && (0o020000u32
        | perms) & 0o7777u32 == perms) by (bit_vector);
    assert(perms <= 0o7777u32 ==> (0o060000u32 | perms) & 0o170000u32 == 0o060000u32 && (0o060000u32
        | perms) & 0o7777u32 == perms) by (bit_vector);
    assert(perms <= 0o7777u32 ==> (0o100000u32 | perms) & 0o170000u32 == 0o100000u32 && (0o100000u32
        | perms) & 0o7777u32 == perms) by (bit_vector);
    assert(perms <= 0o7777u32 ==> (0o010000u32 | perms) & 0o170000u32 == 0o010000u32 && (0o010000u32
        | perms) & 0o7777u32 == perms) by (bit_vector);
    assert(perms <= 0o7777u32 ==> (0o120000u32 | perms) & 0o170000u32 == 0o120000u32 && (0o120000u32
        | perms) & 0o7777u32 == perms) by (bit_vector);
}

/// The entries of an archive from the header at `pos` on, in order, up to
/// the trailer or the first malformed entry; and whether the archive ended
/// at its trailer (`true`) or at a malformed entry (`false`).
pub open spec fn spec_entries_from(data: Seq<u8>, pos: int) -> (Seq<SpecCpioFile>, bool)
    decreases data.len() + 4 - pos,
{
    match spec_parse_entry(data, pos) {
        None => (Seq::empty(), false),
        Some((f, next)) => if f.name == cpio_trailer() {
            (Seq::empty(), true)
        } else {
            proof {
                lemma_entry_advances(data, pos);
            }
            let rest = spec_entries_from(data, next);
            (seq![f] + rest.0, rest.1)
        },
    }
}

/// A reader after `k` steps.
pub open spec fn spec_run(s: ArchiveState, k: nat) -> ArchiveState
    decreases k,
{
    if k == 0 {
        s
    } else {
        spec_run(spec_next(s).1, (k - 1) as nat)
    }
}

proof fn lemma_run_finished(s: ArchiveState, k: nat)
    requires
        s.done,
    ensures
        spec_run(s, k) == s,
    decreases k,
{
    if k > 0 {
        lemma_run_finished(spec_next(s).1, (k - 1) as nat);
    }
}

/// Reading an archive gives its entries in order: a reader started at a
/// header gives, at its `i`-th step, the `i`-th entry of
/// [`spec_entries_from`]; right after the last one it gives the end of the
/// archive if the trailer came next, or a malformed entry otherwise; and
/// from then on only the end.
pub proof fn lemma_reader_gives_entries(data: Seq<u8>, pos: int, i: nat)
    ensures
        ({
            let (entries, clean) = spec_entries_from(data, pos);
            let step = spec_next(spec_run(ArchiveState { data, pos, done: false }, i)).0;
            &&& i < entries.len() ==> step == NextOutcome::Entry(entries[i as int])
            &&& i == entries.len() ==> (if clean {
                step is End
            } else {
                step is Malformed
            })
            &&& i > entries.len() ==> step is End
        }),
    decreases data.len() + 4 - pos, i,
{
    let s0 = ArchiveState { data, pos, done: false };
    match spec_parse_entry(data, pos) {
        None => {
            if i > 0 {
                lemma_run_finished(spec_next(s0).1, (i - 1) as nat);
            }
        },
        Some((f, next)) => {
            if f.name == cpio_trailer() {
                if i > 0 {
                    lemma_run_finished(spec_next(s0).1, (i - 1) as nat);
                }
            } else {
                lemma_entry_advances(data, pos);
                if i > 0 {
                    lemma_reader_gives_entries(data, next, (i - 1) as nat);
                    let rest = spec_entries_from(data, next);
                    assert(spec_entries_from(data, pos).0 == seq![f] + rest.0);
                    if i - 1 < rest.0.len() {
                        assert((seq![f] + rest.0)[i as int] == rest.0[i - 1]);
                    }
                }
            }
        },
    }
}

/// The ASCII hexadecimal digit for `d` (below sixteen): `0`-`9`, then `a`-`f`
/// in lower case or `A`-`F` in upper case.
pub open spec fn hex_char(d: nat, upper: bool) -> u8 {
    if d < 10 {
        (0x30 + d) as u8
    } else if upper {
        (0x41 + d - 10) as u8
    } else {
        (0x61 + d - 10) as u8
    }
}

/// The last `n` hexadecimal digits of `v`, most significant first, as text.
pub open spec fn render_hex(v: nat, n: nat, upper: bool) -> Seq<u8>
    decreases n,
{
    if n == 0 {
        Seq::empty()
    } else {
        render_hex(v / 16, (n - 1) as nat, upper).push(hex_char(v % 16, upper))
    }
}

/// The hexadecimal digits are exactly `0`-`9`, `a`-`f` and `A`-`F`: each of
/// them, in either case, has its value, and every byte that has a value is
/// one of them.
pub proof fn lemma_hex_digits(b: u8, d: nat, upper: bool)
    ensures
        d < 16 ==> hex_digit_value(hex_char(d, upper)) == Some(d),
        hex_digit_value(b) == Some(d) ==> d < 16 && (b == hex_char(d, false) || b == hex_char(
            d,
            true,
        )),
{
}

proof fn lemma_hex_value_render(v: nat, n: nat, upper: bool)
    requires
        v < pow16(n),
    ensures
        render_hex(v, n, upper).len() == n,
        forall|i: int| 0 <= i < n ==> #[trigger] render_hex(v, n, upper)[i] >= 0x30,
        hex_value(render_hex(v, n, upper)) == Some(v),
    decreases n,
{
    if n > 0 {
        let q = v / 16;
        let r = v % 16;
        let p = pow16((n - 1) as nat);
        assert(q < p && r < 16 && q * 16 + r == v) by (nonlinear_arith)
            requires
                v < 16 * p,
                q == v / 16,
                r == v % 16,
        ;
        lemma_hex_value_render(q, (n - 1) as nat, upper);
        lemma_hex_digits(0, r, upper);
        let s = render_hex(v, n, upper);
        assert(s.drop_last() =~= render_hex(q, (n - 1) as nat, upper));
    }
}

/// Every `u32` written as eight hexadecimal digits, in lower or in upper
/// case (as cpio writers fill header fields), reads back as itself.
pub proof fn lemma_parse_hex_roundtrip(v: u32, upper: bool)
    ensures
        spec_parse_hex(render_hex(v as nat, 8, upper)) == Some(v),
{
    lemma_pow16_8();
    lemma_hex_value_render(v as nat, 8, upper);
    let s = render_hex(v as nat, 8, upper);
    assert(s[0] >= 0x30);
}

/// The magic is the text `070701` and the trailer's name the text
/// `TRAILER!!!`.
pub proof fn lemma_magic_and_trailer_text()
    ensures
        cpio_magic() == "070701".spec_bytes(),
        cpio_trailer() == "TRAILER!!!".spec_bytes(),
{
    reveal_strlit("070701");
    reveal_strlit("TRAILER!!!");
    assert(vstd::string::is_ascii("070701"));
    assert(vstd::string::is_ascii("TRAILER!!!"));
    vstd::string::is_ascii_spec_bytes("070701");
    vstd::string::is_ascii_spec_bytes("TRAILER!!!");
    assert(cpio_magic() =~= "070701".spec_bytes());
    assert(cpio_trailer() =~= "TRAILER!!!".spec_bytes());
}

/// Padding rounds up to the next multiple of four: the result is a
/// multiple of four, at least the offset and less than four past it; it
/// fails only where that would not fit in a `usize`.
pub proof fn lemma_align4(x: int)
    requires
        0 <= x <= usize::MAX,
    ensures
        spec_align4(x) is None <==> x + 3 > usize::MAX,
        spec_align4(x) matches Some(y) ==> y % 4 == 0 && x <= y < x + 4,
{
}

/// A field may start with `+` before its digits, as `u32::from_str_radix`
/// allows; a `-`, a lone `+` or an empty field is rejected.
pub proof fn lemma_parse_hex_sign(v: nat, n: nat, upper: bool, rest: Seq<u8>)
    requires
        1 <= n <= 7,
        v < pow16(n),
    ensures
        spec_parse_hex(seq![0x2bu8] + render_hex(v, n, upper)) == Some(v as u32),
        spec_parse_hex(seq![0x2du8] + rest) is None,
        spec_parse_hex(seq![0x2bu8]) is None,
        spec_parse_hex(Seq::empty()) is None,
{
    lemma_hex_value_render(v, n, upper);
    lemma_pow16_monotone(n, 8);
    lemma_pow16_8();
    let s = seq![0x2bu8] + render_hex(v, n, upper);
    assert(s.drop_first() =~= render_hex(v, n, upper));
    assert(seq![0x2bu8].drop_first() =~= Seq::<u8>::empty());
    let m = seq![0x2du8] + rest;
    lemma_hex_value_none_extends(m, 1);
    assert(m.take(1).drop_last() =~= Seq::<u8>::empty());
}

/// A numeric header field as a writer fills it: eight lower-case
/// hexadecimal digits.
pub open spec fn hex8(v: nat) -> Seq<u8> {
    render_hex(v, 8, false)
}

/// `n` zero bytes.
pub open spec fn zeros(n: nat) -> Seq<u8> {
    Seq::new(n, |i: int| 0u8)
}

/// How many zero bytes pad `n` bytes to a multiple of four.
pub open spec fn pad4(n: int) -> nat {
    ((4 - n % 4) % 4) as nat
}

/// The 110-byte header a writer puts before an entry, with checksum field
/// `check`.
pub open spec fn render_header(f: SpecCpioFile, check: u32) -> Seq<u8> {
    cpio_magic() + hex8(f.ino as nat) + hex8(f.mode as nat) + hex8(f.uid as nat) + hex8(
        f.gid as nat,
    ) + hex8(f.nlink as nat) + hex8(f.mtime as nat) + hex8(f.data.len()) + hex8(f.dev.0 as nat)
        + hex8(f.dev.1 as nat) + hex8(f.rdev.0 as nat) + hex8(f.rdev.1 as nat) + hex8(
        f.name.len() + 1,
    ) + hex8(check as nat)
}

/// The bytes a "newc" writer emits for an entry: the header, the name and
/// its NUL, zeros up to a multiple of four, the data, and zeros again.
pub open spec fn render_entry(f: SpecCpioFile, check: u32) -> Seq<u8> {
    let head = render_header(f, check) + f.name + seq![0u8];
    let head_padded = head + zeros(pad4(head.len() as int));
    head_padded + f.data + zeros(pad4((head_padded.len() + f.data.len()) as int))
}

proof fn lemma_pad_align(pos: int, len: int)
    requires
        pos % 4 == 0,
        0 <= len,
        0 <= pos,
    ensures
        spec_align4(pos + len) is Some ==> spec_align4(pos + len) == Some(pos + len + pad4(len)),
        (pos + len + pad4(len)) % 4 == 0,
        pad4(len) < 4,
{
    assert((pos + len + 3) - (pos + len + 3) % 4 == pos + len + (4 - len % 4) % 4) by (
    nonlinear_arith)
        requires
            pos % 4 == 0,
            0 <= len,
            0 <= pos,
    ;
    assert((pos + len + (4 - len % 4) % 4) % 4 == 0) by (nonlinear_arith)
        requires
            pos % 4 == 0,
            0 <= len,
            0 <= pos,
    ;
}

#[verifier::rlimit(50)]
#[verifier::spinoff_prover]
proof fn lemma_render_header(f: SpecCpioFile, check: u32)
    requires
        f.data.len() <= u32::MAX,
        f.name.len() + 1 <= u32::MAX,
    ensures
        render_header(f, check).len() == 110,
        spec_parse_header(render_header(f, check)) == Some(
            HeaderFields {
                ino: f.ino,
                mode: f.mode,
                uid: f.uid,
                gid: f.gid,
                nlink: f.nlink,
                mtime: f.mtime,
                filesize: f.data.len() as u32,
                devmajor: f.dev.0,
                devminor: f.dev.1,
                rdevmajor: f.rdev.0,
                rdevminor: f.rdev.1,
                namesize: (f.name.len() + 1) as u32,
            },
        ),
{
    lemma_pow16_8();
    let vals = seq![
        f.ino as nat,
        f.mode as nat,
        f.uid as nat,
        f.gid as nat,
        f.nlink as nat,
        f.mtime as nat,
        f.data.len(),
        f.dev.0 as nat,
        f.dev.1 as nat,
        f.rdev.0 as nat,
        f.rdev.1 as nat,
        f.name.len() + 1,
        check as nat,
    ];
    assert forall|k: int| 0 <= k < 13 implies hex8(#[trigger] vals[k]).len() == 8 by {
        lemma_hex_value_render(vals[k], 8, false);
    }
    let h = render_header(f, check);
    assert(h.subrange(0, 6) =~= cpio_magic());
    assert forall|k: int|
        0 <= k < 13 implies #[trigger] header_field(h, 6 + 8 * k) =~= hex8(vals[k]) by {
        assert(hex8(vals[0]).len() == 8);
        assert(hex8(vals[1]).len() == 8);
        assert(hex8(vals[2]).len() == 8);
        assert(hex8(vals[3]).len() == 8);
        assert(hex8(vals[4]).len() == 8);
        assert(hex8(vals[5]).len() == 8);
        assert(hex8(vals[6]).len() == 8);
        assert(hex8(vals[7]).len() == 8);
        assert(hex8(vals[8]).len() == 8);
        assert(hex8(vals[9]).len() == 8);
        assert(hex8(vals[10]).len() == 8);
        assert(hex8(vals[11]).len() == 8);
        assert(hex8(vals[12]).len() == 8);
    }
    assert(header_field(h, 6) == hex8(vals[0])) by {
        assert(header_field(h, 6int + 8int * 0int) =~= hex8(vals[0]));
    }
    lemma_parse_hex_roundtrip(vals[0] as u32, false);
    assert(header_field(h, 14) == hex8(vals[1])) by {
        assert(header_field(h, 6int + 8int * 1int) =~= hex8(vals[1]));
    }
    lemma_parse_hex_roundtrip(vals[1] as u32, false);
    assert(header_field(h, 22) == hex8(vals[2])) by {
        assert(header_field(h, 6int + 8int * 2int) =~= hex8(vals[2]));
    }
    lemma_parse_hex_roundtrip(vals[2] as u32, false);
    assert(header_field(h, 30) == hex8(vals[3])) by {
        assert(header_field(h, 6int + 8int * 3int) =~= hex8(vals[3]));
    }
    lemma_parse_hex_roundtrip(vals[3] as u32, false);
    assert(header_field(h, 38) == hex8(vals[4])) by {
        assert(header_field(h, 6int + 8int * 4int) =~= hex8(vals[4]));
    }
    lemma_parse_hex_roundtrip(vals[4] as u32, false);
    assert(header_field(h, 46) == hex8(vals[5])) by {
        assert(header_field(h, 6int + 8int * 5int) =~= hex8(vals[5]));
    }
    lemma_parse_hex_roundtrip(vals[5] as u32, false);
    assert(header_field(h, 54) == hex8(vals[6])) by {
        assert(header_field(h, 6int + 8int * 6int) =~= hex8(vals[6]));
    }
    lemma_parse_hex_roundtrip(vals[6] as u32, false);
    assert(header_field(h, 62) == hex8(vals[7])) by {
        assert(header_field(h, 6int + 8int * 7int) =~= hex8(vals[7]));
    }
    lemma_parse_hex_roundtrip(vals[7] as u32, false);
    assert(header_field(h, 70) == hex8(vals[8])) by {
        assert(header_field(h, 6int + 8int * 8int) =~= hex8(vals[8]));
    }
    lemma_parse_hex_roundtrip(vals[8] as u32, false);
    assert(header_field(h, 78) == hex8(vals[9])) by {
        assert(header_field(h, 6int + 8int * 9int) =~= hex8(vals[9]));
    }
    lemma_parse_hex_roundtrip(vals[9] as u32, false);
    assert(header_field(h, 86) == hex8(vals[10])) by {
        assert(header_field(h, 6int + 8int * 10int) =~= hex8(vals[10]));
    }
    lemma_parse_hex_roundtrip(vals[10] as u32, false);
    assert(header_field(h, 94) == hex8(vals[11])) by {
        assert(header_field(h, 6int + 8int * 11int) =~= hex8(vals[11]));
    }
    lemma_parse_hex_roundtrip(vals[11] as u32, false);
}

/// What a writer emits is read back: an entry laid out as a "newc" writer
/// lays it out (header with eight-digit hexadecimal fields, NUL-terminated
/// UTF-8 name, zero padding to four bytes, data, zero padding), starting on
/// a four-byte boundary, parses to exactly that entry, and the next header
/// is expected right after it.
#[verifier::rlimit(80)]
#[verifier::spinoff_prover]
pub proof fn lemma_parse_rendered_entry(data: Seq<u8>, pos: int, f: SpecCpioFile, check: u32)
    requires
        0 <= pos,
        pos % 4 == 0,
        valid_utf8(f.name),
        f.data.len() <= u32::MAX,
        f.name.len() + 1 <= u32::MAX,
        pos + render_entry(f, check).len() <= data.len(),
        pos + render_entry(f, check).len() + 3 <= usize::MAX,
        data.subrange(pos, pos + render_entry(f, check).len()) == render_entry(f, check),
    ensures
        spec_parse_entry(data, pos) == Some((f, pos + render_entry(f, check).len())),
{
    lemma_render_header(f, check);
    let e = render_entry(f, check);
    let h = render_header(f, check);
    let head = h + f.name + seq![0u8];
    let hl = head.len() as int;
    let hp = head + zeros(pad4(hl));
    let hpl = hp.len() as int;
    let dl = f.data.len() as int;
    assert(hl == 110 + f.name.len() + 1);
    assert(hpl == hl + pad4(hl));
    assert(e.len() == hpl + dl + pad4(hpl + dl));
    lemma_pad_align(pos, hl);
    lemma_pad_align(pos, hpl + dl);
    let w = data.subrange(pos, pos + e.len());
    assert(data.subrange(pos, pos + 110) =~= h) by {
        assert forall|i: int| 0 <= i < 110 implies data.subrange(pos, pos + 110)[i] == h[i] by {
            assert(data.subrange(pos, pos + 110)[i] == w[i]);
            assert(e[i] == h[i]);
        }
    }
    let name_buf = data.subrange(pos + 110, pos + hl);
    assert(name_buf =~= f.name + seq![0u8]) by {
        assert forall|i: int| 0 <= i < hl - 110 implies name_buf[i] == (f.name + seq![0u8])[i] by {
            assert(name_buf[i] == w[110 + i]);
            assert(e[110 + i] == head[110 + i]);
        }
    }
    assert(name_buf.drop_last() =~= f.name);
    assert(data.subrange(pos + hpl, pos + hpl + dl) =~= f.data) by {
        assert forall|i: int| 0 <= i < dl implies data.subrange(pos + hpl, pos + hpl + dl)[i]
            == f.data[i] by {
            assert(data.subrange(pos + hpl, pos + hpl + dl)[i] == w[hpl + i]);
            assert(e[hpl + i] == f.data[i]);
        }
    }
}

} // verus!
