//! The decisions by which a cpio archive is unpacked into a directory tree.
//!
//! Unpacking alternates between these decisions and work on the tree (look
//! a name up, create a node, link, write data, set attributes). [`Unpacker`]
//! makes the decisions: for each entry it gives an [`EntryPlan`], and it
//! keeps the hardlink groups whose first member has been created. The
//! caller does the work on the tree, following the plan.
use crate::error::{FsError, KernelError};
use crate::fs::attr::FilePermissions;
use crate::fs::cpio::{spec_file_type, spec_permission_bits, str_from_utf8, CpioFile, SpecCpioFile};
use crate::fs::FileType;
use vstd::prelude::*;
use vstd::string::StringSliceAdditionalSpecFns;
use vstd::utf8::valid_utf8;

verus! {

/// Permission bits of directories that entries reference but the archive
/// never lists.
pub const IMPLICIT_DIR_MODE: u16 = 0o755;

/// A hardlink group: every entry of the group has the same device and
/// inode number.
#[derive(Debug, Clone, Copy, PartialEq, Eq, PartialOrd, Ord)]
pub struct HLKey {
    pub dev: (u32, u32),
    pub ino: u32,
}

// ---------------------------------------------------------------------------
// Specification
// ---------------------------------------------------------------------------

/// The ASCII byte `/`.
pub open spec fn slash() -> u8 {
    0x2f
}

/// The ASCII byte `.`.
pub open spec fn dot() -> u8 {
    0x2e
}

/// How many leading bytes of a name are dropped: `./` if the name starts
/// with it, else `/` if it starts with that, else none.
pub open spec fn spec_strip_len(name: Seq<u8>) -> int {
    if name.len() >= 2 && name[0] == dot() && name[1] == slash() {
        2
    } else if name.len() >= 1 && name[0] == slash() {
        1
    } else {
        0
    }
}

/// `s` without its trailing slashes.
pub open spec fn spec_trim_end(s: Seq<u8>) -> Seq<u8>
    decreases s.len(),
{
    if s.len() > 0 && s.last() == slash() {
        spec_trim_end(s.drop_last())
    } else {
        s
    }
}

/// The path an entry's name stands for: the name without a leading `./`
/// (or else a leading `/`) and without trailing slashes.
pub open spec fn spec_clean_path(name: Seq<u8>) -> Seq<u8> {
    spec_trim_end(name.skip(spec_strip_len(name)))
}

/// The ranges of the `/`-separated components of `s`, in order. A string
/// with `k` slashes has `k + 1` components, some of them maybe empty.
pub open spec fn spec_segment_ranges(s: Seq<u8>) -> Seq<(int, int)>
    decreases s.len(),
{
    if s.len() == 0 {
        seq![(0int, 0int)]
    } else {
        let prev = spec_segment_ranges(s.drop_last());
        let n = s.len() as int;
        if s.last() == slash() {
            prev.push((n, n))
        } else {
            prev.update(prev.len() - 1, (prev.last().0, n))
        }
    }
}

/// A component that cannot name a node: empty, `.` or `..`.
pub open spec fn spec_unusable_component(c: Seq<u8>) -> bool {
    c.len() == 0 || c == seq![dot()] || c == seq![dot(), dot()]
}

/// Whether some component of `p` cannot name a node.
pub open spec fn spec_has_unusable(p: Seq<u8>) -> bool {
    let r = spec_segment_ranges(p);
    exists|k: int| 0 <= k < r.len() && #[trigger] spec_unusable_component(p.subrange(r[k].0, r[k].1))
}

/// The hardlink group of an entry: entries with more than one link and a
/// non-zero inode number are grouped by device and inode number; an inode
/// number of 0 means the archive gives none.
pub open spec fn spec_hardlink_key(f: SpecCpioFile) -> Option<HLKey> {
    if f.nlink > 1 && f.ino != 0 {
        Some(HLKey { dev: f.dev, ino: f.ino })
    } else {
        None
    }
}

/// What to do with an entry once its parent directory is reached.
pub enum SpecAction {
    /// Create a directory (or take the one already there) and set its
    /// attributes.
    Directory,
    /// Make a regular file and set its attributes: link the node recorded
    /// for the entry's group if `link_to` has one, else create a node and,
    /// where `remember` has a group, record the node for it. Then write the
    /// entry's data.
    Regular { link_to: Option<usize>, remember: Option<HLKey> },
    /// Create a symlink to `target`.
    Symlink { target: Seq<u8> },
    /// Skip: the symlink's target is not UTF-8.
    SkipBadSymlinkTarget,
    /// Skip: the entry's type is not unpacked.
    SkipUnsupported,
}

/// What to do with an entry.
pub enum SpecEntryPlan {
    /// The entry stands for the root itself: set the root's attributes.
    Root,
    /// The name has a component that cannot name a node: skip the entry.
    SkipUnusableName,
    /// The path is the bytes `start..end` of the name; its components are
    /// `segments` (ranges within the path). Walk from the root through all
    /// components but the last, creating the missing directories, then act
    /// on the last one.
    Place { start: int, end: int, segments: Seq<(int, int)>, action: SpecAction },
}

/// What to do with an entry's node, given the recorded hardlink groups.
pub open spec fn spec_action(f: SpecCpioFile, links: Map<HLKey, usize>) -> SpecAction {
    match spec_file_type(f.mode, f.rdev) {
        Some(FileType::Directory) => SpecAction::Directory,
        Some(FileType::File) => {
            let key = spec_hardlink_key(f);
            let link_to = match key {
                Some(k) => if links.contains_key(k) {
                    Some(links[k])
                } else {
                    None
                },
                None => None,
            };
            SpecAction::Regular {
                link_to,
                remember: if link_to is None {
                    key
                } else {
                    None
                },
            }
        },
        Some(FileType::Symlink) => if valid_utf8(f.data) {
            SpecAction::Symlink { target: f.data }
        } else {
            SpecAction::SkipBadSymlinkTarget
        },
        _ => SpecAction::SkipUnsupported,
    }
}

/// What to do with an entry, given the recorded hardlink groups.
pub open spec fn spec_plan(f: SpecCpioFile, links: Map<HLKey, usize>) -> SpecEntryPlan {
    let p = spec_clean_path(f.name);
    if p.len() == 0 || p == seq![dot()] {
        SpecEntryPlan::Root
    } else if spec_has_unusable(p) {
        SpecEntryPlan::SkipUnusableName
    } else {
        let start = spec_strip_len(f.name);
        SpecEntryPlan::Place {
            start,
            end: start + p.len(),
            segments: spec_segment_ranges(p),
            action: spec_action(f, links),
        }
    }
}

/// The recorded groups of a list of records, later records over earlier.
pub open spec fn spec_links_map(v: Seq<(HLKey, usize)>) -> Map<HLKey, usize>
    decreases v.len(),
{
    if v.len() == 0 {
        Map::empty()
    } else {
        spec_links_map(v.drop_last()).insert(v.last().0, v.last().1)
    }
}

// ---------------------------------------------------------------------------
// Lemmas
// ---------------------------------------------------------------------------

proof fn lemma_segment_ranges_wf(s: Seq<u8>)
    ensures
        spec_segment_ranges(s).len() >= 1,
        spec_segment_ranges(s).last().1 == s.len(),
        forall|k: int|
            0 <= k < spec_segment_ranges(s).len() ==> 0 <= #[trigger] spec_segment_ranges(s)[k].0
                <= spec_segment_ranges(s)[k].1 <= s.len(),
    decreases s.len(),
{
    if s.len() > 0 {
        lemma_segment_ranges_wf(s.drop_last());
    }
}

// ---------------------------------------------------------------------------
// Plans
// ---------------------------------------------------------------------------

/// Where an entry goes: its path is `name[start..end]`; `segments` are the
/// ranges of the path's components within the path, the last one naming
/// the entry and the others its ancestors from the root down.
#[derive(Debug)]
pub struct PathPlan {
    pub start: usize,
    pub end: usize,
    pub segments: Vec<(usize, usize)>,
}

/// What to do with an entry's node once its parent directory is reached.
#[derive(Debug)]
pub enum EntryAction<'a> {
    /// Create a directory, or, where one already exists, look it up; then
    /// set its attributes.
    Directory,
    /// Link the node recorded for the entry's hardlink group (`link_to`) or
    /// else create a regular file and, where `remember` has a group, record
    /// the new node for it; then write the entry's data and set its
    /// attributes.
    Regular { link_to: Option<usize>, remember: Option<HLKey> },
    /// Create a symlink to `target`.
    Symlink { target: &'a str },
    /// Skip the entry: the symlink's target is not UTF-8.
    SkipBadSymlinkTarget,
    /// Skip the entry: its file type is not unpacked.
    SkipUnsupported,
}

/// What to do with an entry of the archive.
#[derive(Debug)]
pub enum EntryPlan<'a> {
    /// The archive's entry for its own root: set the root's attributes.
    Root,
    /// The name has an empty, `.` or `..` component: skip the entry.
    SkipUnusableName,
    /// Walk from the root to the parent directory, creating the missing
    /// directories, then act on the node.
    Place { path: PathPlan, action: EntryAction<'a> },
}

impl<'a> View for EntryAction<'a> {
    type V = SpecAction;

    open spec fn view(&self) -> SpecAction {
        match *self {
            EntryAction::Directory => SpecAction::Directory,
            EntryAction::Regular { link_to, remember } => SpecAction::Regular { link_to, remember },
            EntryAction::Symlink { target } => SpecAction::Symlink { target: target.spec_bytes() },
            EntryAction::SkipBadSymlinkTarget => SpecAction::SkipBadSymlinkTarget,
            EntryAction::SkipUnsupported => SpecAction::SkipUnsupported,
        }
    }
}

/// Ranges of `usize` as ranges of `int`.
pub open spec fn int_ranges(v: Seq<(usize, usize)>) -> Seq<(int, int)> {
    v.map_values(|r: (usize, usize)| (r.0 as int, r.1 as int))
}

impl<'a> View for EntryPlan<'a> {
    type V = SpecEntryPlan;

    open spec fn view(&self) -> SpecEntryPlan {
        match self {
            EntryPlan::Root => SpecEntryPlan::Root,
            EntryPlan::SkipUnusableName => SpecEntryPlan::SkipUnusableName,
            EntryPlan::Place { path, action } => SpecEntryPlan::Place {
                start: path.start as int,
                end: path.end as int,
                segments: int_ranges(path.segments@),
                action: action@,
            },
        }
    }
}

/// The ranges of the `/`-separated components of `p`.
fn segment_ranges(p: &[u8]) -> (res: Vec<(usize, usize)>)
    ensures
        int_ranges(res@) == spec_segment_ranges(p@),
{
    let len = p.len();
    let mut ranges: Vec<(usize, usize)> = Vec::new();
    let mut cur: usize = 0;
    let mut i: usize = 0;
    assert(p@.take(0) =~= Seq::<u8>::empty());
    assert(int_ranges(ranges@).push((0int, 0int)) =~= spec_segment_ranges(p@.take(0)));
    while i < len
        invariant
            len == p@.len(),
            0 <= cur <= i <= len,
            int_ranges(ranges@).push((cur as int, i as int)) == spec_segment_ranges(p@.take(i as int)),
        decreases len - i,
    {
        let ghost prev = int_ranges(ranges@).push((cur as int, i as int));
        assert(p@.take(i + 1).drop_last() =~= p@.take(i as int));
        assert(p@.take(i + 1).last() == p@[i as int]);
        if p[i] == 0x2f {
            ranges.push((cur, i));
            cur = i + 1;
            i = i + 1;
            assert(int_ranges(ranges@).push((cur as int, i as int)) =~= prev.push(
                (i as int, i as int),
            ));
        } else {
            i = i + 1;
            assert(int_ranges(ranges@).push((cur as int, i as int)) =~= prev.update(
                prev.len() - 1,
                (prev.last().0, i as int),
            ));
        }
    }
    assert(p@.take(len as int) =~= p@);
    ranges.push((cur, len));
    assert(int_ranges(ranges@) =~= spec_segment_ranges(p@));
    ranges
}

/// Whether a component cannot name a node.
fn unusable_component(c: &[u8]) -> (res: bool)
    ensures
        res == spec_unusable_component(c@),
{
    let r = c.len() == 0 || (c.len() == 1 && c[0] == 0x2e) || (c.len() == 2 && c[0] == 0x2e && c[1]
        == 0x2e);
    assert(c.len() == 1 && c[0] == 0x2e ==> c@ =~= seq![dot()]);
    assert(c.len() == 2 && c[0] == 0x2e && c[1] == 0x2e ==> c@ =~= seq![dot(), dot()]);
    assert(c@ == seq![dot()] ==> c.len() == 1 && c@[0] == seq![dot()][0]);
    assert(c@ == seq![dot(), dot()] ==> c.len() == 2 && c@[0] == seq![dot(), dot()][0] && c@[1]
        == seq![dot(), dot()][1]);
    r
}

/// Whether some component of `p`, whose ranges are `ranges`, cannot name a
/// node.
fn has_unusable(p: &[u8], ranges: &Vec<(usize, usize)>) -> (res: bool)
    requires
        int_ranges(ranges@) == spec_segment_ranges(p@),
    ensures
        res == spec_has_unusable(p@),
{
    proof {
        lemma_segment_ranges_wf(p@);
    }
    let ghost r = spec_segment_ranges(p@);
    assert(r.len() == ranges@.len());
    let mut k: usize = 0;
    while k < ranges.len()
        invariant
            r == spec_segment_ranges(p@),
            r == int_ranges(ranges@),
            forall|j: int| 0 <= j < r.len() ==> 0 <= #[trigger] r[j].0 <= r[j].1 <= p@.len(),
            0 <= k <= ranges@.len(),
            forall|j: int| 0 <= j < k ==> !spec_unusable_component(p@.subrange(r[j].0, r[j].1)),
        decreases ranges@.len() - k,
    {
        let (a, b) = ranges[k];
        assert(r[k as int] == (a as int, b as int));
        if unusable_component(&p[a..b]) {
            assert(spec_unusable_component(p@.subrange(r[k as int].0, r[k as int].1)));
            return true;
        }
        k = k + 1;
    }
    false
}

/// The permissions of directories created for unlisted path components.
pub fn implicit_dir_permissions() -> (res: FilePermissions)
    ensures
        res@ == IMPLICIT_DIR_MODE,
{
    FilePermissions::from_bits_retain(IMPLICIT_DIR_MODE)
}

// ---------------------------------------------------------------------------
// Unpacker
// ---------------------------------------------------------------------------

/// The decision state of an unpacking: the hardlink groups met so far, each
/// with the caller's handle for the node created for its first member.
pub struct Unpacker {
    hardlinks: Vec<(HLKey, usize)>,
}

impl View for Unpacker {
    type V = Map<HLKey, usize>;

    closed spec fn view(&self) -> Map<HLKey, usize> {
        spec_links_map(self.hardlinks@)
    }
}

impl Unpacker {
    /// An unpacking that has met no hardlink group yet.
    pub fn new() -> (res: Self)
        ensures
            res@ == Map::<HLKey, usize>::empty(),
    {
        Unpacker { hardlinks: Vec::new() }
    }

    /// The handle recorded for a hardlink group.
    pub fn lookup(&self, key: HLKey) -> (res: Option<usize>)
        ensures
            res == (if self@.contains_key(key) {
                Some(self@[key])
            } else {
                None::<usize>
            }),
    {
        let ghost v = self.hardlinks@;
        let mut i = self.hardlinks.len();
        assert(v.take(i as int) =~= v);
        while i > 0
            invariant
                v == self.hardlinks@,
                0 <= i <= v.len(),
                spec_links_map(v).contains_key(key) == spec_links_map(v.take(i as int)).contains_key(
                    key,
                ),
                spec_links_map(v).contains_key(key) ==> spec_links_map(v)[key] == spec_links_map(
                    v.take(i as int),
                )[key],
            decreases i,
        {
            let (k, h) = self.hardlinks[i - 1];
            assert(v.take(i as int).drop_last() =~= v.take(i - 1));
            if k.dev.0 == key.dev.0 && k.dev.1 == key.dev.1 && k.ino == key.ino {
                return Some(h);
            }
            i = i - 1;
        }
        None
    }

    /// Records `handle` as the node of the hardlink group `key`.
    pub fn remember(&mut self, key: HLKey, handle: usize)
        ensures
            final(self)@ == old(self)@.insert(key, handle),
    {
        self.hardlinks.push((key, handle));
        assert(self.hardlinks@.drop_last() =~= old(self).hardlinks@);
    }

    /// What to do with the node of an entry whose path is usable.
    fn action<'a>(&self, file: &CpioFile<'a>) -> (res: EntryAction<'a>)
        ensures
            res@ == spec_action(file@, self@),
    {
        match file.file_type() {
            Some(FileType::Directory) => EntryAction::Directory,
            Some(FileType::File) => {
                let key = if file.nlink > 1 && file.ino != 0 {
                    Some(HLKey { dev: file.dev, ino: file.ino })
                } else {
                    None
                };
                let link_to = match key {
                    Some(k) => self.lookup(k),
                    None => None,
                };
                let remember = if link_to.is_none() {
                    key
                } else {
                    None
                };
                EntryAction::Regular { link_to, remember }
            },
            Some(FileType::Symlink) => match str_from_utf8(file.data) {
                Some(target) => EntryAction::Symlink { target },
                None => EntryAction::SkipBadSymlinkTarget,
            },
            _ => EntryAction::SkipUnsupported,
        }
    }

    /// What to do with an entry of the archive.
    pub fn plan<'a>(&self, file: &CpioFile<'a>) -> (res: EntryPlan<'a>)
        ensures
            res@ == spec_plan(file@, self@),
    {
        let name = file.name.as_bytes();
        let len = name.len();
        let start: usize = if len >= 2 && name[0] == 0x2e && name[1] == 0x2f {
            2
        } else if len >= 1 && name[0] == 0x2f {
            1
        } else {
            0
        };
        let ghost full = name@.skip(start as int);
        let mut end = len;
        assert(name@.subrange(start as int, len as int) =~= full);
        while end > start && name[end - 1] == 0x2f
            invariant
                start <= end <= len == name@.len(),
                spec_trim_end(full) == spec_trim_end(name@.subrange(start as int, end as int)),
            decreases end,
        {
            assert(name@.subrange(start as int, end - 1) =~= name@.subrange(
                start as int,
                end as int,
            ).drop_last());
            end = end - 1;
        }
        let p = &name[start..end];
        assert(spec_trim_end(p@) == p@);
        assert(p@ == spec_clean_path(file@.name));
        if p.len() == 0 || (p.len() == 1 && p[0] == 0x2e) {
            assert(p.len() == 1 ==> p@ =~= seq![dot()]);
            return EntryPlan::Root;
        }
        assert(p@ != seq![dot()] ==> !(p@.len() == 1 && p@[0] == dot())) by {
            if p@.len() == 1 && p@[0] == dot() {
                assert(p@ =~= seq![dot()]);
            }
        }
        let segments = segment_ranges(p);
        if has_unusable(p, &segments) {
            return EntryPlan::SkipUnusableName;
        }
        let action = self.action(file);
        EntryPlan::Place { path: PathPlan { start, end, segments }, action }
    }
}

// ---------------------------------------------------------------------------
// The steps around the tree
// ---------------------------------------------------------------------------

/// What a walk from the root does with the lookup of one path component.
#[derive(Debug)]
pub enum WalkStep {
    /// The component exists: step into it.
    Descend,
    /// The component is missing: create it as a directory with
    /// [`IMPLICIT_DIR_MODE`] and step into it.
    CreateDirectory,
    /// The lookup failed otherwise: the unpacking fails with this error.
    Fail(KernelError),
}

/// What a walk does with the outcome of looking up a component (`Ok` when
/// the component exists).
pub fn walk_step(lookup: &Result<(), KernelError>) -> (res: WalkStep)
    ensures
        match *lookup {
            Ok(()) => res is Descend,
            Err(KernelError::Fs(FsError::NotFound)) => res is CreateDirectory,
            Err(e) => res == WalkStep::Fail(e),
        },
{
    match lookup {
        Ok(()) => WalkStep::Descend,
        Err(KernelError::Fs(FsError::NotFound)) => WalkStep::CreateDirectory,
        Err(e) => WalkStep::Fail(*e),
    }
}

/// What the unpacking does with the outcome of creating a listed directory.
#[derive(Debug)]
pub enum DirCreateStep {
    /// The directory was created: use it.
    UseCreated,
    /// The directory exists already (an earlier entry's path created it):
    /// look it up and use it.
    LookUp,
    /// The creation failed otherwise: the unpacking fails with this error.
    Fail(KernelError),
}

/// What the unpacking does with the outcome of creating a directory.
pub fn dir_create_step(create: &Result<(), KernelError>) -> (res: DirCreateStep)
    ensures
        match *create {
            Ok(()) => res is UseCreated,
            Err(KernelError::Fs(FsError::AlreadyExists)) => res is LookUp,
            Err(e) => res == DirCreateStep::Fail(e),
        },
{
    match create {
        Ok(()) => DirCreateStep::UseCreated,
        Err(KernelError::Fs(FsError::AlreadyExists)) => DirCreateStep::LookUp,
        Err(e) => DirCreateStep::Fail(*e),
    }
}

/// The progress of writing the whole of an entry's data into its node, a
/// chunk per write.
pub struct WriteAll {
    written: usize,
    total: usize,
}

impl View for WriteAll {
    /// Bytes written so far, and bytes to write in all.
    type V = (nat, nat);

    closed spec fn view(&self) -> (nat, nat) {
        (self.written as nat, self.total as nat)
    }
}

impl WriteAll {
    /// The start of writing `total` bytes.
    pub fn new(total: usize) -> (res: Self)
        ensures
            res@ == (0nat, total as nat),
    {
        WriteAll { written: 0, total }
    }

    /// The offset from which the next write goes, or `None` once all bytes
    /// are written; an empty slice of data needs no write at all.
    pub fn next_offset(&self) -> (res: Option<usize>)
        ensures
            self@.0 < self@.1 ==> res == Some(self@.0 as usize),
            self@.0 >= self@.1 ==> res is None,
    {
        if self.written < self.total {
            Some(self.written)
        } else {
            None
        }
    }

    /// Takes in how many bytes a write from the current offset wrote. A
    /// write of nothing fails the unpacking with
    /// `FsError::OutOfBounds`; otherwise the offset moves on by `n`.
    pub fn advance(&mut self, n: usize) -> (res: Result<(), KernelError>)
        requires
            old(self)@.0 + n <= usize::MAX,
        ensures
            n == 0 ==> res == Err::<(), KernelError>(KernelError::Fs(FsError::OutOfBounds))
                && final(self)@ == old(self)@,
            n > 0 ==> res is Ok && final(self)@ == ((old(self)@.0 + n) as nat, old(self)@.1),
    {
        if n == 0 {
            return Err(KernelError::Fs(FsError::OutOfBounds));
        }
        self.written = self.written + n;
        Ok(())
    }
}

/// The attributes an entry gives its node: owner, group, permission bits,
/// and one time, in seconds, for access, modification and change alike.
pub struct AttrUpdate {
    pub uid: u32,
    pub gid: u32,
    pub permissions: FilePermissions,
    pub time_secs: u64,
}

/// The attributes an entry gives its node.
pub fn attr_update(file: &CpioFile) -> (res: AttrUpdate)
    ensures
        res.uid == file.uid,
        res.gid == file.gid,
        res.permissions@ == spec_permission_bits(file.mode),
        res.time_secs == file.mtime as u64,
{
    AttrUpdate {
        uid: file.uid,
        gid: file.gid,
        permissions: file.permissions(),
        time_secs: file.mtime as u64,
    }
}

// ---------------------------------------------------------------------------
// Laws
// ---------------------------------------------------------------------------

/// Entries of one hardlink group share one node: once a node is recorded
/// for the group of a regular file, that file is linked to the node, and no
/// new node is made or recorded for it.
pub proof fn lemma_hardlink_group_shares_node(
    f: SpecCpioFile,
    links: Map<HLKey, usize>,
    k: HLKey,
    h: usize,
)
    requires
        spec_hardlink_key(f) == Some(k),
        spec_file_type(f.mode, f.rdev) == Some(FileType::File),
    ensures
        spec_action(f, links.insert(k, h)) == (SpecAction::Regular {
            link_to: Some(h),
            remember: None,
        }),
{
}

/// The first regular file of a hardlink group that has no node yet makes a
/// new node and records it for the group; a regular file outside any group
/// always makes a new node and records nothing.
pub proof fn lemma_new_node_for_new_group(f: SpecCpioFile, links: Map<HLKey, usize>)
    requires
        spec_file_type(f.mode, f.rdev) == Some(FileType::File),
        match spec_hardlink_key(f) {
            Some(k) => !links.contains_key(k),
            None => true,
        },
    ensures
        spec_action(f, links) == (SpecAction::Regular {
            link_to: None,
            remember: spec_hardlink_key(f),
        }),
{
}

/// A leading `./` or `/` is dropped from a name, so `./x`, `/x` and `x`
/// stand for the same path, as do names that differ only in trailing
/// slashes.
pub proof fn lemma_clean_path_prefixes(s: Seq<u8>)
    requires
        spec_strip_len(s) == 0,
    ensures
        spec_clean_path(seq![dot(), slash()] + s) == spec_clean_path(s),
        spec_clean_path(seq![slash()] + s) == spec_clean_path(s),
        s != seq![dot()] ==> spec_clean_path(s.push(slash())) == spec_clean_path(s),
{
    let a = seq![dot(), slash()] + s;
    let b = seq![slash()] + s;
    assert(a.skip(2) =~= s);
    assert(b.skip(1) =~= s);
    assert(s.skip(0) =~= s);
    let c = s.push(slash());
    if s.len() == 0 {
        assert(c.skip(1) =~= s);
        assert(s.skip(0) =~= s);
    } else if s != seq![dot()] {
        assert(spec_strip_len(c) == 0) by {
            if s.len() >= 1 {
                assert(c[0] == s[0]);
            }
            if s.len() >= 2 {
                assert(c[1] == s[1]);
            }
            if s.len() == 1 {
                assert(c[1] == slash());
                assert(s[0] != dot()) by {
                    if s[0] == dot() {
                        assert(s =~= seq![dot()]);
                    }
                }
            }
            if s.len() == 0 {
                assert(c[0] == slash());
            }
        }
        assert(c.skip(0) =~= c);
        assert(c.drop_last() =~= s);
    }
}

/// The components of a path split it at its slashes: the first starts the
/// path, the last ends it, each next one starts just past the slash that
/// ends the one before, and none holds a slash.
pub proof fn lemma_segments_split_at_slashes(p: Seq<u8>)
    ensures
        spec_segment_ranges(p).len() >= 1,
        spec_segment_ranges(p)[0].0 == 0,
        spec_segment_ranges(p).last().1 == p.len(),
        forall|k: int|
            #![trigger spec_segment_ranges(p)[k]]
            0 <= k < spec_segment_ranges(p).len() ==> 0 <= spec_segment_ranges(p)[k].0
                <= spec_segment_ranges(p)[k].1 <= p.len(),
        forall|k: int|
            #![trigger spec_segment_ranges(p)[k]]
            0 <= k < spec_segment_ranges(p).len() - 1 ==> spec_segment_ranges(p)[k + 1].0
                == spec_segment_ranges(p)[k].1 + 1 && p[spec_segment_ranges(p)[k].1] == slash(),
        forall|k: int, j: int|
            #![trigger spec_segment_ranges(p)[k], p[j]]
            0 <= k < spec_segment_ranges(p).len() && spec_segment_ranges(p)[k].0 <= j
                < spec_segment_ranges(p)[k].1 ==> p[j] != slash(),
    decreases p.len(),
{
    lemma_segment_ranges_wf(p);
    if p.len() > 0 {
        let q = p.drop_last();
        lemma_segments_split_at_slashes(q);
        lemma_segment_ranges_wf(q);
        let prev = spec_segment_ranges(q);
        let r = spec_segment_ranges(p);
        let n = p.len() as int;
        assert forall|j: int| 0 <= j < n - 1 implies p[j] == q[j] by {}
        if p.last() == slash() {
            assert(r == prev.push((n, n)));
            assert forall|k: int| #![trigger r[k]] 0 <= k < r.len() - 1 implies r[k + 1].0 == r[k].1 + 1 && p[r[k].1]
                == slash() by {
                if k < r.len() - 2 {
                    assert(r[k] == prev[k]);
                    assert(r[k + 1] == prev[k + 1]);
                } else {
                    assert(r[k] == prev.last());
                }
            }
            assert forall|k: int, j: int|
                #![trigger r[k], p[j]]
                0 <= k < r.len() && r[k].0 <= j < r[k].1 implies p[j] != slash() by {
                if k < r.len() - 1 {
                    assert(r[k] == prev[k]);
                    assert(q[j] != slash());
                }
            }
        } else {
            assert(r == prev.update(prev.len() - 1, (prev.last().0, n)));
            assert forall|k: int| #![trigger r[k]] 0 <= k < r.len() - 1 implies r[k + 1].0 == r[k].1 + 1 && p[r[k].1]
                == slash() by {
                assert(r[k] == prev[k]);
                if k < r.len() - 2 {
                    assert(r[k + 1] == prev[k + 1]);
                } else {
                    assert(r[k + 1].0 == prev[k + 1].0);
                }
            }
            assert forall|k: int, j: int|
                #![trigger r[k], p[j]]
                0 <= k < r.len() && r[k].0 <= j < r[k].1 implies p[j] != slash() by {
                if k < r.len() - 1 {
                    assert(r[k] == prev[k]);
                    assert(q[j] != slash());
                } else if j < n - 1 {
                    assert(prev[k].0 <= j < prev[k].1);
                    assert(q[j] != slash());
                }
            }
        }
    }
}

/// A placed entry's path lies within its name and is never empty, and
/// every one of its components is a usable name: not empty, not `.`, not
/// `..`.
pub proof fn lemma_placed_components_usable(f: SpecCpioFile, links: Map<HLKey, usize>)
    requires
        spec_plan(f, links) is Place,
    ensures
        ({
            let p = spec_clean_path(f.name);
            let r = spec_segment_ranges(p);
            &&& spec_plan(f, links)->start == spec_strip_len(f.name)
            &&& spec_plan(f, links)->end == spec_strip_len(f.name) + p.len()
            &&& 0 < p.len()
            &&& p == f.name.subrange(spec_plan(f, links)->start, spec_plan(f, links)->end)
            &&& spec_plan(f, links)->segments == r
            &&& forall|k: int|
                0 <= k < r.len() ==> !#[trigger] spec_unusable_component(p.subrange(r[k].0, r[k].1))
        }),
{
    let p = spec_clean_path(f.name);
    let st = spec_strip_len(f.name);
    lemma_trim_end_prefix(f.name.skip(st));
    assert(p =~= f.name.subrange(st, st + p.len()));
}

/// Trimming trailing slashes keeps a prefix of the string.
proof fn lemma_trim_end_prefix(s: Seq<u8>)
    ensures
        spec_trim_end(s).len() <= s.len(),
        spec_trim_end(s) == s.subrange(0, spec_trim_end(s).len() as int),
    decreases s.len(),
{
    if s.len() > 0 && s.last() == slash() {
        lemma_trim_end_prefix(s.drop_last());
        assert(s.drop_last().subrange(0, spec_trim_end(s).len() as int) =~= s.subrange(
            0,
            spec_trim_end(s).len() as int,
        ));
    } else {
        assert(s.subrange(0, s.len() as int) =~= s);
    }
}

/// Regular files with the same device and inode number, more than one link
/// and a non-zero inode number form one group: the first of them met, with
/// nothing recorded for that device and inode yet, gets a new node that is
/// recorded under that device and inode, and every later one is linked to
/// the recorded node. A regular file with fewer than two links or inode
/// number 0 always gets a new node of its own, which is not recorded.
pub proof fn lemma_hardlink_members(
    f1: SpecCpioFile,
    f2: SpecCpioFile,
    links: Map<HLKey, usize>,
    h: usize,
)
    requires
        spec_file_type(f1.mode, f1.rdev) == Some(FileType::File),
        spec_file_type(f2.mode, f2.rdev) == Some(FileType::File),
    ensures
        f1.nlink >= 2 && f1.ino != 0 && !links.contains_key(HLKey { dev: f1.dev, ino: f1.ino })
            ==> spec_action(f1, links) == (SpecAction::Regular {
            link_to: None,
            remember: Some(HLKey { dev: f1.dev, ino: f1.ino }),
        }),
        f1.nlink >= 2 && f1.ino != 0 && f2.nlink >= 2 && f2.dev == f1.dev && f2.ino == f1.ino
            ==> spec_action(f2, links.insert(HLKey { dev: f1.dev, ino: f1.ino }, h)) == (
        SpecAction::Regular { link_to: Some(h), remember: None }),
        f1.nlink < 2 || f1.ino == 0 ==> spec_action(f1, links) == (SpecAction::Regular {
            link_to: None,
            remember: None,
        }),
{
}

/// Paths are separated by `/`; the components that cannot name a node are
/// exactly the empty one, `.` and `..`; and the prefix dropped from names
/// is `./` or `/`.
pub proof fn lemma_path_text(c: Seq<u8>)
    ensures
        seq![slash()] == "/".spec_bytes(),
        seq![dot(), slash()] == "./".spec_bytes(),
        spec_unusable_component(c) <==> (c == "".spec_bytes() || c == ".".spec_bytes() || c
            == "..".spec_bytes()),
{
    reveal_strlit("/");
    reveal_strlit("./");
    reveal_strlit("");
    reveal_strlit(".");
    reveal_strlit("..");
    assert(vstd::string::is_ascii("/"));
    assert(vstd::string::is_ascii("./"));
    assert(vstd::string::is_ascii(""));
    assert(vstd::string::is_ascii("."));
    assert(vstd::string::is_ascii(".."));
    vstd::string::is_ascii_spec_bytes("/");
    vstd::string::is_ascii_spec_bytes("./");
    vstd::string::is_ascii_spec_bytes("");
    vstd::string::is_ascii_spec_bytes(".");
    vstd::string::is_ascii_spec_bytes("..");
    assert(seq![slash()] =~= "/".spec_bytes());
    assert(seq![dot(), slash()] =~= "./".spec_bytes());
    assert(Seq::<u8>::empty() =~= "".spec_bytes());
    assert(seq![dot()] =~= ".".spec_bytes());
    assert(seq![dot(), dot()] =~= "..".spec_bytes());
    if c.len() == 0 {
        assert(c =~= Seq::<u8>::empty());
    }
}

} // verus!
