//! The kernel command line's long options.
//!
//! The command line is split at spaces and read option by option (that
//! reading is done outside the library); each long option is matched here
//! and its value stored in [`KOptions`]:
//! `--init PATH`, `--init-arg ARG` (repeatable), `--rootfs FS` and
//! `--automount PATH,FS` (repeatable). Other options are unknown and
//! ignored.
use vstd::prelude::*;
use vstd::string::StringSliceAdditionalSpecFns;
use vstd::utf8::{
    encode_utf8_valid_utf8, is_char_boundary, is_char_boundary_iff_not_is_continuation_byte,
    is_char_boundary_start_end_of_seq,
};

verus! {

/// The long options the kernel knows.
#[derive(Debug, Clone, Copy, PartialEq, Eq, Structural)]
pub enum LongOpt {
    /// `--init`: the path of the init program.
    Init,
    /// `--init-arg`: one more argument for init.
    InitArg,
    /// `--rootfs`: the filesystem driver of the root.
    RootFs,
    /// `--automount`: a mount made once the root is mounted.
    Automount,
    /// Any other option.
    Unknown,
}

/// The option that a long option's name (its UTF-8 bytes) stands for.
pub open spec fn spec_long_opt(name: Seq<u8>) -> LongOpt {
    if name == seq![0x69u8, 0x6eu8, 0x69u8, 0x74u8] {
        LongOpt::Init
    } else if name == seq![0x69u8, 0x6eu8, 0x69u8, 0x74u8, 0x2du8, 0x61u8, 0x72u8, 0x67u8] {
        LongOpt::InitArg
    } else if name == seq![0x72u8, 0x6fu8, 0x6fu8, 0x74u8, 0x66u8, 0x73u8] {
        LongOpt::RootFs
    } else if name == seq![
        0x61u8,
        0x75u8,
        0x74u8,
        0x6fu8,
        0x6du8,
        0x6fu8,
        0x75u8,
        0x6eu8,
        0x74u8,
    ] {
        LongOpt::Automount
    } else {
        LongOpt::Unknown
    }
}

/// The option a long option's name stands for: `init`, `init-arg`,
/// `rootfs` or `automount`, else unknown.
pub fn long_opt(name: &str) -> (res: LongOpt)
    ensures
        res == spec_long_opt(name.spec_bytes()),
{
    let b = name.as_bytes();
    let n = b.len();
    if n == 4 && b[0] == 0x69 && b[1] == 0x6e && b[2] == 0x69 && b[3] == 0x74 {
        assert(b@ =~= seq![0x69u8, 0x6eu8, 0x69u8, 0x74u8]);
        return LongOpt::Init;
    }
    assert(b@ == seq![0x69u8, 0x6eu8, 0x69u8, 0x74u8] ==> n == 4 && b@[0] == 0x69 && b@[1] == 0x6e
        && b@[2] == 0x69 && b@[3] == 0x74);
    if n == 8 && b[0] == 0x69 && b[1] == 0x6e && b[2] == 0x69 && b[3] == 0x74 && b[4] == 0x2d && b[5]
        == 0x61 && b[6] == 0x72 && b[7] == 0x67 {
        assert(b@ =~= seq![0x69u8, 0x6eu8, 0x69u8, 0x74u8, 0x2du8, 0x61u8, 0x72u8, 0x67u8]);
        return LongOpt::InitArg;
    }
    assert(b@ == seq![0x69u8, 0x6eu8, 0x69u8, 0x74u8, 0x2du8, 0x61u8, 0x72u8, 0x67u8] ==> n == 8
        && b@[0] == 0x69 && b@[1] == 0x6e && b@[2] == 0x69 && b@[3] == 0x74 && b@[4] == 0x2d
        && b@[5] == 0x61 && b@[6] == 0x72 && b@[7] == 0x67);
    if n == 6 && b[0] == 0x72 && b[1] == 0x6f && b[2] == 0x6f && b[3] == 0x74 && b[4] == 0x66 && b[5]
        == 0x73 {
        assert(b@ =~= seq![0x72u8, 0x6fu8, 0x6fu8, 0x74u8, 0x66u8, 0x73u8]);
        return LongOpt::RootFs;
    }
    assert(b@ == seq![0x72u8, 0x6fu8, 0x6fu8, 0x74u8, 0x66u8, 0x73u8] ==> n == 6 && b@[0] == 0x72
        && b@[1] == 0x6f && b@[2] == 0x6f && b@[3] == 0x74 && b@[4] == 0x66 && b@[5] == 0x73);
    if n == 9 && b[0] == 0x61 && b[1] == 0x75 && b[2] == 0x74 && b[3] == 0x6f && b[4] == 0x6d && b[5]
        == 0x6f && b[6] == 0x75 && b[7] == 0x6e && b[8] == 0x74 {
        assert(b@ =~= seq![
            0x61u8,
            0x75u8,
            0x74u8,
            0x6fu8,
            0x6du8,
            0x6fu8,
            0x75u8,
            0x6eu8,
            0x74u8,
        ]);
        return LongOpt::Automount;
    }
    assert(b@ == seq![0x61u8, 0x75u8, 0x74u8, 0x6fu8, 0x6du8, 0x6fu8, 0x75u8, 0x6eu8, 0x74u8]
        ==> n == 9 && b@[0] == 0x61 && b@[1] == 0x75 && b@[2] == 0x74 && b@[3] == 0x6f && b@[4]
        == 0x6d && b@[5] == 0x6f && b@[6] == 0x75 && b@[7] == 0x6e && b@[8] == 0x74);
    LongOpt::Unknown
}

/// The ASCII byte `,`.
pub open spec fn comma() -> u8 {
    0x2c
}

/// The index of the first comma of `b` at or after `from`, or the length of
/// `b` where there is none.
pub open spec fn spec_find_comma(b: Seq<u8>, from: int) -> int
    decreases b.len() - from,
{
    if from >= b.len() || from < 0 {
        b.len() as int
    } else if b[from] == comma() {
        from
    } else {
        spec_find_comma(b, from + 1)
    }
}

/// The comma search stops at the first comma at or after `from`: no byte
/// before where it stops is a comma, and it stops either at a comma or at
/// the end.
pub proof fn lemma_find_comma(b: Seq<u8>, from: int)
    requires
        0 <= from <= b.len(),
    ensures
        from <= spec_find_comma(b, from) <= b.len(),
        spec_find_comma(b, from) < b.len() ==> b[spec_find_comma(b, from)] == comma(),
        forall|i: int| from <= i < spec_find_comma(b, from) ==> b[i] != comma(),
    decreases b.len() - from,
{
    if from < b.len() && b[from] != comma() {
        lemma_find_comma(b, from + 1);
    }
}

fn find_comma(b: &[u8]) -> (res: usize)
    ensures
        res == spec_find_comma(b@, 0),
{
    let mut i: usize = 0;
    while i < b.len() && b[i] != 0x2c
        invariant
            0 <= i <= b@.len(),
            spec_find_comma(b@, 0) == spec_find_comma(b@, i as int),
        decreases b@.len() - i,
    {
        i = i + 1;
    }
    i
}

/// Where a string can be split at `index`: at its end, or before a comma.
proof fn lemma_comma_boundary(s: &str, index: int)
    requires
        0 <= index <= s.spec_bytes().len(),
        index < s.spec_bytes().len() ==> s.spec_bytes()[index] == comma(),
    ensures
        is_char_boundary(s.spec_bytes(), index),
{
    encode_utf8_valid_utf8(s@);
    if index == s.spec_bytes().len() {
        is_char_boundary_start_end_of_seq(s.spec_bytes());
    } else {
        is_char_boundary_iff_not_is_continuation_byte(s.spec_bytes(), index);
    }
}

/// The value of `--automount` split at its commas: the path (the text
/// before the first comma) and the filesystem (the text after it, up to the
/// next comma or the end); `None` where the value has no comma.
pub fn split_automount(value: &str) -> (res: Option<(&str, &str)>)
    ensures
        ({
            let b = value.spec_bytes();
            let c = spec_find_comma(b, 0);
            let rest = b.subrange(c + 1, b.len() as int);
            &&& (res is None <==> forall|i: int| 0 <= i < b.len() ==> b[i] != comma())
            &&& c == b.len() ==> res is None
            &&& c < b.len() ==> (res matches Some((path, fs)) && path.spec_bytes() == b.subrange(0, c)
                && fs.spec_bytes() == rest.subrange(0, spec_find_comma(rest, 0)))
        }),
{
    let bytes = value.as_bytes();
    let c = find_comma(bytes);
    proof {
        lemma_find_comma(value.spec_bytes(), 0);
    }
    if c == bytes.len() {
        return None;
    }
    proof {
        lemma_comma_boundary(value, c as int);
    }
    let (path, with_comma) = value.split_at(c);
    assert(with_comma.spec_bytes()[0] == comma());
    proof {
        encode_utf8_valid_utf8(with_comma@);
        reveal_with_fuel(is_char_boundary, 2);
        assert(is_char_boundary(with_comma.spec_bytes(), 1));
    }
    let (_, rest) = with_comma.split_at(1);
    assert(rest.spec_bytes() =~= value.spec_bytes().subrange(c + 1, value.spec_bytes().len() as int));
    let d = find_comma(rest.as_bytes());
    proof {
        lemma_find_comma(rest.spec_bytes(), 0);
        lemma_comma_boundary(rest, d as int);
    }
    let (fs, _) = rest.split_at(d);
    Some((path, fs))
}

/// The UTF-8 bytes of a character sequence.
pub open spec fn encode_utf8_of(chars: Seq<char>) -> Seq<u8> {
    vstd::utf8::encode_utf8(chars)
}

/// The kernel's options.
#[derive(Debug)]
pub struct KOptions {
    /// The path of the init program.
    pub init: Option<String>,
    /// The filesystem driver of the root.
    pub root_fs: Option<String>,
    /// Mounts to make once the root is mounted: path and filesystem.
    pub automounts: Vec<(String, String)>,
    /// More arguments for init, in order.
    pub init_args: Vec<String>,
}

impl KOptions {
    /// No option given.
    pub fn new() -> (res: Self)
        ensures
            res.init is None,
            res.root_fs is None,
            res.automounts@.len() == 0,
            res.init_args@.len() == 0,
    {
        KOptions { init: None, root_fs: None, automounts: Vec::new(), init_args: Vec::new() }
    }

    /// Takes in the value of a known option: `--init` and `--rootfs` set
    /// their option (a later one replaces an earlier one), `--init-arg`
    /// appends an argument, and `--automount` appends a mount made of the
    /// path and filesystem that [`split_automount`] reads from the value.
    /// Where the value of `--automount` has no comma, nothing changes and
    /// `false` is returned; otherwise `true`.
    pub fn apply(&mut self, opt: LongOpt, value: &str) -> (res: bool)
        requires
            !(opt is Unknown),
        ensures
            opt is Init ==> res && (final(self).init matches Some(s) && s@ == value@)
                && final(self).root_fs == old(self).root_fs
                && final(self).automounts@ == old(self).automounts@
                && final(self).init_args@ == old(self).init_args@,
            opt is RootFs ==> res && (final(self).root_fs matches Some(s) && s@ == value@)
                && final(self).init == old(self).init
                && final(self).automounts@ == old(self).automounts@
                && final(self).init_args@ == old(self).init_args@,
            opt is InitArg ==> res && final(self).init_args@.len() == old(self).init_args@.len() + 1
                && final(self).init_args@.drop_last() == old(self).init_args@
                && final(self).init_args@.last()@ == value@
                && final(self).init == old(self).init
                && final(self).root_fs == old(self).root_fs
                && final(self).automounts@ == old(self).automounts@,
            opt is Automount ==> ({
                let b = value.spec_bytes();
                let c = spec_find_comma(b, 0);
                let rest = b.subrange(c + 1, b.len() as int);
                let m = final(self).automounts@;
                &&& final(self).init == old(self).init
                &&& final(self).root_fs == old(self).root_fs
                &&& final(self).init_args@ == old(self).init_args@
                &&& c == b.len() ==> !res && m == old(self).automounts@
                &&& c < b.len() ==> res && m.len() == old(self).automounts@.len() + 1
                    && m.drop_last() == old(self).automounts@
                    && encode_utf8_of(m.last().0@) == b.subrange(0, c)
                    && encode_utf8_of(m.last().1@) == rest.subrange(0, spec_find_comma(rest, 0))
            }),
    {
        match opt {
            LongOpt::Init => {
                self.init = Some(value.to_owned());
                true
            },
            LongOpt::RootFs => {
                self.root_fs = Some(value.to_owned());
                true
            },
            LongOpt::InitArg => {
                self.init_args.push(value.to_owned());
                assert(self.init_args@.drop_last() =~= old(self).init_args@);
                true
            },
            _ => match split_automount(value) {
                Some((path, fs)) => {
                    self.automounts.push((path.to_owned(), fs.to_owned()));
                    assert(self.automounts@.drop_last() =~= old(self).automounts@);
                    true
                },
                None => false,
            },
        }
    }
}

/// Where the root filesystem comes from at boot.
#[derive(Debug, Clone, Copy, PartialEq, Eq, Structural)]
pub enum RootSource {
    /// The initrd is a cpio archive: mount an empty tmpfs as the root and
    /// unpack the archive into it.
    Initramfs,
    /// Mount the `--rootfs` driver as the root, over the initrd as a block
    /// device where there is an initrd (`with_ramdisk`).
    RootFs { with_ramdisk: bool },
}

/// Where the root comes from, given the bytes of the initrd if there is one.
pub fn root_source(initrd: Option<&[u8]>) -> (res: RootSource)
    ensures
        match initrd {
            Some(b) => if b@.len() >= 6 && b@.subrange(0, 6) == crate::fs::cpio::cpio_magic() {
                res == RootSource::Initramfs
            } else {
                res == (RootSource::RootFs { with_ramdisk: true })
            },
            None => res == (RootSource::RootFs { with_ramdisk: false }),
        },
{
    match initrd {
        Some(b) => if crate::fs::cpio::is_cpio(b) {
            RootSource::Initramfs
        } else {
            RootSource::RootFs { with_ramdisk: true }
        },
        None => RootSource::RootFs { with_ramdisk: false },
    }
}

/// The argument vector of init: its path, then the `--init-arg` values in
/// order.
pub fn init_argv(init: &str, init_args: &Vec<String>) -> (res: Vec<String>)
    ensures
        res@.len() == init_args@.len() + 1,
        res@[0]@ == init@,
        forall|i: int| 0 <= i < init_args@.len() ==> #[trigger] res@[i + 1] == init_args@[i],
{
    let mut argv: Vec<String> = Vec::new();
    argv.push(init.to_owned());
    let mut i: usize = 0;
    while i < init_args.len()
        invariant
            0 <= i <= init_args@.len(),
            argv@.len() == i + 1,
            argv@[0]@ == init@,
            forall|j: int| 0 <= j < i ==> #[trigger] argv@[j + 1] == init_args@[j],
        decreases init_args@.len() - i,
    {
        argv.push(init_args[i].clone());
        i = i + 1;
    }
    argv
}

/// The known long options are named `init`, `init-arg`, `rootfs` and
/// `automount`, and an automount value is split at `,`.
pub proof fn lemma_option_names()
    ensures
        spec_long_opt("init".spec_bytes()) == LongOpt::Init,
        spec_long_opt("init-arg".spec_bytes()) == LongOpt::InitArg,
        spec_long_opt("rootfs".spec_bytes()) == LongOpt::RootFs,
        spec_long_opt("automount".spec_bytes()) == LongOpt::Automount,
        seq![comma()] == ",".spec_bytes(),
{
    reveal_strlit("init");
    reveal_strlit("init-arg");
    reveal_strlit("rootfs");
    reveal_strlit("automount");
    reveal_strlit(",");
    assert(vstd::string::is_ascii("init"));
    assert(vstd::string::is_ascii("init-arg"));
    assert(vstd::string::is_ascii("rootfs"));
    assert(vstd::string::is_ascii("automount"));
    assert(vstd::string::is_ascii(","));
    vstd::string::is_ascii_spec_bytes("init");
    vstd::string::is_ascii_spec_bytes("init-arg");
    vstd::string::is_ascii_spec_bytes("rootfs");
    vstd::string::is_ascii_spec_bytes("automount");
    vstd::string::is_ascii_spec_bytes(",");
    assert("init".spec_bytes() =~= seq![0x69u8, 0x6eu8, 0x69u8, 0x74u8]);
    assert("init-arg".spec_bytes() =~= seq![
        0x69u8,
        0x6eu8,
        0x69u8,
        0x74u8,
        0x2du8,
        0x61u8,
        0x72u8,
        0x67u8,
    ]);
    assert("rootfs".spec_bytes() =~= seq![0x72u8, 0x6fu8, 0x6fu8, 0x74u8, 0x66u8, 0x73u8]);
    assert("automount".spec_bytes() =~= seq![
        0x61u8,
        0x75u8,
        0x74u8,
        0x6fu8,
        0x6du8,
        0x6fu8,
        0x75u8,
        0x6eu8,
        0x74u8,
    ]);
    assert(seq![comma()] =~= ",".spec_bytes());
}

} // verus!
