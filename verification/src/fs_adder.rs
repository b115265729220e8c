//! Which paths of the file system become which entries of an archive.
use vstd::prelude::*;
use crate::bytes::copy_bytes;
use crate::create::{EntryKind, EntryTrait};
use crate::error::{CreatorError, InputError};
use crate::tree::ContentAddress;
use crate::paths::{fs_strip_prefix, fs_path_strip_prefix, to_arx_path, to_arx_path_spec, Trimer};
use crate::error::InputErrorKind;

verus! {

/// Two file system paths are equal, component by component, as
/// `std::path::Path == Path` says.
pub uninterp spec fn fs_same_path(a: Seq<char>, b: Seq<char>) -> bool;

/// Calls `std::path::Path::eq`; the result is named `fs_same_path`.
#[verifier::external_body]
pub(crate) fn fs_path_eq(a: &str, b: &str) -> (r: bool)
    ensures
        r == fs_same_path(a@, b@),
{
    std::path::Path::new(a) == std::path::Path::new(b)
}

/// What is done with a path found on the file system.
pub enum AddStep {
    /// Nothing: it is not stored.
    Skip,
    /// It is stored at `arx_path`; a link at that path is followed when
    /// `follow_symlink` is set.
    Add { arx_path: String, follow_symlink: bool },
}

/// How paths of the file system are stored.
#[derive(Clone, Copy, PartialEq, Eq, Structural, Debug)]
pub struct FsAdder {
    /// Keep the parents of an input path (only the root of an absolute path
    /// is dropped); else an input path is stored under its own name.
    pub keep_parents: bool,
    /// Follow the links found under an input path.
    pub follow_symlink: bool,
    /// Store what is under an input directory at the root, without the
    /// directory itself.
    pub dir_as_root: bool,
}

/// The step for a path stored at `arx_path` (or refused): an empty path is
/// not stored, and the root of an input is followed if it is a link.
pub open spec fn entry_step_spec(arx_path: Result<Seq<char>, InputErrorKind>, follow_symlink: bool, is_root: bool) -> Result<(Seq<char>, bool), InputErrorKind> {
    match arx_path {
        Ok(p) => Ok((p, follow_symlink || is_root)),
        Err(k) => Err(k),
    }
}

/// `r` is the step for `spec`: skipped for an empty path.
pub open spec fn step_is(r: Result<AddStep, InputError>, spec: Result<(Seq<char>, bool), InputErrorKind>) -> bool {
    match spec {
        Ok((p, follow)) => if p.len() == 0 {
            r matches Ok(AddStep::Skip)
        } else {
            r matches Ok(AddStep::Add { arx_path, follow_symlink }) && arx_path@ == p && follow_symlink == follow
        },
        Err(k) => r matches Err(e) && e.kind == k,
    }
}

/// `r` is the step for `entry`, found walking the input path `root` whose
/// trimer is `trimer`: under `dir_as_root` the root itself is skipped and
/// the rest is stored from the root on; otherwise the trimer says what is
/// stored. The root is followed if it is a link.
pub open spec fn walked_step(a: FsAdder, root: Seq<char>, trimer: Trimer, entry: Seq<char>, r: Result<AddStep, InputError>) -> bool {
    let is_root = fs_same_path(entry, root);
    if a.dir_as_root && is_root {
        r matches Ok(AddStep::Skip)
    } else {
        let stored = if a.dir_as_root {
            fs_strip_prefix(entry, root).unwrap()
        } else {
            match trimer.0 {
                Some(prefix) => fs_strip_prefix(entry, prefix@).unwrap(),
                None => entry,
            }
        };
        step_is(r, entry_step_spec(to_arx_path_spec(stored), a.follow_symlink, is_root))
    }
}

/// `r` is the step for a path given in a list: its trimer says what is
/// stored.
pub open spec fn listed_step(a: FsAdder, path: Seq<char>, r: Result<AddStep, InputError>) -> bool {
    let stored = match crate::paths::trimer_prefix(a.keep_parents, path) {
        Some(prefix) => fs_strip_prefix(path, prefix).unwrap(),
        None => path,
    };
    step_is(r, entry_step_spec(to_arx_path_spec(stored), a.follow_symlink, false))
}

impl FsAdder {
    pub fn new(keep_parents: bool, follow_symlink: bool, dir_as_root: bool) -> (r: Self)
        ensures
            r == (FsAdder { keep_parents, follow_symlink, dir_as_root }),
    {
        FsAdder { keep_parents, follow_symlink, dir_as_root }
    }

    /// The step for the file system path `path`, to store at `arx_path`.
    fn entry_step(&self, arx_path: Result<String, InputError>, is_root: bool) -> (r: Result<AddStep, InputError>)
        ensures
            match arx_path {
                Ok(p) => if p@.len() == 0 {
                    r matches Ok(AddStep::Skip)
                } else {
                    r matches Ok(AddStep::Add { arx_path, follow_symlink }) && arx_path@ == p@ && follow_symlink
                        == (self.follow_symlink || is_root)
                },
                Err(e) => r == Err::<AddStep, InputError>(e),
            },
    {
        match arx_path {
            Ok(p) => {
                if p.as_str().is_empty() {
                    Ok(AddStep::Skip)
                } else {
                    Ok(AddStep::Add { arx_path: p, follow_symlink: self.follow_symlink || is_root })
                }
            },
            Err(e) => Err(e),
        }
    }

    /// The step for `entry`, found walking the input path `root`, whose
    /// trimer is `trimer`: under `dir_as_root`, the root itself is not
    /// stored and the rest is stored from the root on; otherwise the trimer
    /// says what is stored. The root is followed if it is a link.
    pub fn plan_walked(&self, root: &str, trimer: &Trimer, entry: &str) -> (r: Result<AddStep, InputError>)
        requires
            self.dir_as_root && !fs_same_path(entry@, root@) ==> fs_strip_prefix(entry@, root@) is Some,
            !self.dir_as_root ==> (trimer.0 matches Some(prefix) ==> fs_strip_prefix(entry@, prefix@) is Some),
        ensures
            walked_step(*self, root@, *trimer, entry@, r),
    {
        let is_root = fs_path_eq(entry, root);
        let stored = if self.dir_as_root {
            if is_root {
                return Ok(AddStep::Skip);
            }
            match fs_path_strip_prefix(entry, root) {
                Some(p) => p,
                None => entry.to_owned(),
            }
        } else {
            trimer.trim(entry)
        };
        let arx_path = to_arx_path(stored.as_str());
        self.entry_step(arx_path, is_root)
    }

    /// The step for a path given in a list: its trimer says what is stored.
    pub fn plan_listed(&self, path: &str) -> (r: Result<AddStep, InputError>)
        requires
            crate::paths::trimer_prefix(self.keep_parents, path@) matches Some(prefix) ==> fs_strip_prefix(
                path@,
                prefix,
            ) is Some,
        ensures
            listed_step(*self, path@, r),
    {
        let trimer = Trimer::new(self.keep_parents, path);
        let stored = trimer.trim(path);
        let arx_path = to_arx_path(stored.as_str());
        self.entry_step(arx_path, false)
    }

    /// The step for `entry` found walking `root`, or `None` where `entry`
    /// is not under what is to be removed from it.
    pub fn try_plan_walked(&self, root: &str, trimer: &Trimer, entry: &str) -> (r: Option<
        Result<AddStep, InputError>,
    >)
        ensures
            r is Some <==> ((self.dir_as_root && !fs_same_path(entry@, root@) ==> fs_strip_prefix(
                entry@,
                root@,
            ) is Some) && (!self.dir_as_root ==> (trimer.0 matches Some(prefix) ==> fs_strip_prefix(
                entry@,
                prefix@,
            ) is Some))),
            r matches Some(x) ==> walked_step(*self, root@, *trimer, entry@, x),
    {
        if self.dir_as_root {
            if !fs_path_eq(entry, root) && fs_path_strip_prefix(entry, root).is_none() {
                return None;
            }
        } else {
            match &trimer.0 {
                Some(prefix) => {
                    if fs_path_strip_prefix(entry, prefix.as_str()).is_none() {
                        return None;
                    }
                },
                None => {},
            }
        }
        Some(self.plan_walked(root, trimer, entry))
    }

    /// The step for a listed path, or `None` where the path is not under
    /// what its trimer removes.
    pub fn try_plan_listed(&self, path: &str) -> (r: Option<Result<AddStep, InputError>>)
        ensures
            r is Some <==> (crate::paths::trimer_prefix(self.keep_parents, path@) matches Some(prefix)
                ==> fs_strip_prefix(path@, prefix) is Some),
            r matches Some(x) ==> listed_step(*self, path@, x),
    {
        let trimer = Trimer::new(self.keep_parents, path);
        match &trimer.0 {
            Some(prefix) => {
                if fs_path_strip_prefix(path, prefix.as_str()).is_none() {
                    return None;
                }
            },
            None => {},
        }
        Some(self.plan_listed(path))
    }
}

/// What a file system entry is, from its metadata.
#[derive(Clone, Copy, PartialEq, Eq, Structural, Debug)]
pub enum DetectedEntryKind {
    Dir,
    /// A regular file of this many bytes.
    File(u64),
    Link,
    Other,
}

/// What a file system entry is, from its metadata (that of its target when
/// links are followed): a directory, else a regular file with its length,
/// else a link, else something that is not stored.
pub fn detect_kind(is_dir: bool, is_file: bool, is_symlink: bool, len: u64) -> (r: DetectedEntryKind)
    ensures
        r == if is_dir {
            DetectedEntryKind::Dir
        } else if is_file {
            DetectedEntryKind::File(len)
        } else if is_symlink {
            DetectedEntryKind::Link
        } else {
            DetectedEntryKind::Other
        },
{
    if is_dir {
        DetectedEntryKind::Dir
    } else if is_file {
        DetectedEntryKind::File(len)
    } else if is_symlink {
        DetectedEntryKind::Link
    } else {
        DetectedEntryKind::Other
    }
}

/// Contents smaller than this are read at once; bigger ones are read from
/// the file as they are stored.
pub const IN_MEMORY_LIMIT: u64 = 1024 * 1024;

/// Whether a file of `size` bytes is read at once.
pub fn read_in_memory(size: u64) -> (r: bool)
    ensures
        r == (size < IN_MEMORY_LIMIT),
{
    size < IN_MEMORY_LIMIT
}

/// Creating an archive at a path whose directory is missing, or where a
/// file exists already without `force`, is refused.
#[derive(Clone, Copy, PartialEq, Eq, Structural, Debug)]
pub enum OutputCheck {
    /// The archive can be created.
    Writable,
    /// The directory of the output does not exist.
    NoDirectory,
    /// The output exists and `force` is not set.
    Exists,
}

/// Whether an archive can be created: its directory must exist, and an
/// existing file is overwritten only with `force`.
pub fn check_output(parent_is_dir: bool, exists: bool, force: bool) -> (r: OutputCheck)
    ensures
        r == if !parent_is_dir {
            OutputCheck::NoDirectory
        } else if exists && !force {
            OutputCheck::Exists
        } else {
            OutputCheck::Writable
        },
{
    if !parent_is_dir {
        OutputCheck::NoDirectory
    } else if exists && !force {
        OutputCheck::Exists
    } else {
        OutputCheck::Writable
    }
}

/// The size of the contents that were found stored already, and so not
/// stored twice.
pub struct CachedSize(pub u64);

impl CachedSize {
    /// Nothing saved yet.
    pub fn new() -> (r: Self)
        ensures
            r.0 == 0,
    {
        CachedSize(0)
    }

    /// A content of `size` bytes was found stored already.
    pub fn cached_data(&mut self, size: u64)
        requires
            old(self).0 + size <= u64::MAX,
        ensures
            final(self).0 == old(self).0 + size,
    {
        self.0 = self.0 + size;
    }
}

/// The sum of sizes.
pub open spec fn total_size(sizes: Seq<u64>) -> nat
    decreases sizes.len(),
{
    if sizes.len() == 0 {
        0
    } else {
        total_size(sizes.drop_last()) + sizes.last() as nat
    }
}

/// The size saved is the running sum of the contents found stored already:
/// starting from a new count (0) and counting each size in turn as
/// `cached_data` does, the count is the sum of the sizes.
pub proof fn law_cached_total_is_the_sum(sizes: Seq<u64>, counts: Seq<u64>)
    requires
        counts.len() == sizes.len() + 1,
        counts[0] == 0,
        forall|i: int| 0 <= i < sizes.len() ==> #[trigger] counts[i + 1] == counts[i] + sizes[i],
    ensures
        counts.last() == total_size(sizes),
    decreases sizes.len(),
{
    if sizes.len() > 0 {
        let n = sizes.len() - 1;
        assert forall|i: int| 0 <= i < sizes.drop_last().len() implies #[trigger] counts.drop_last()[i + 1]
            == counts.drop_last()[i] + sizes.drop_last()[i] by {
            assert(counts[i + 1] == counts[i] + sizes[i]);
        }
        law_cached_total_is_the_sum(sizes.drop_last(), counts.drop_last());
        assert(counts[n + 1] == counts[n] + sizes[n]);
    }
}

/// What was found on the file system at a path.
pub enum FsEntryKind {
    Dir,
    /// A file of this size, whose content is stored at this address.
    File(u64, ContentAddress),
    /// A link, to this target.
    Link(Vec<u8>),
    /// Something that is not stored.
    Other,
}

/// A path of the file system, with what is stored of it.
pub struct FsEntry {
    pub kind: FsEntryKind,
    pub arx_path: String,
    pub uid: u64,
    pub gid: u64,
    pub mode: u64,
    pub mtime: u64,
}

impl EntryTrait for FsEntry {
    open spec fn spec_kind(&self) -> Result<Option<EntryKind>, CreatorError> {
        match self.kind {
            FsEntryKind::Dir => Ok(Some(EntryKind::Dir)),
            FsEntryKind::File(size, content) => Ok(Some(EntryKind::File(size, content))),
            FsEntryKind::Link(target) => Ok(Some(EntryKind::Link(target))),
            FsEntryKind::Other => Ok(None),
        }
    }

    open spec fn spec_path(&self) -> Seq<char> {
        self.arx_path@
    }

    open spec fn spec_uid(&self) -> u64 {
        self.uid
    }

    open spec fn spec_gid(&self) -> u64 {
        self.gid
    }

    open spec fn spec_mode(&self) -> u64 {
        self.mode
    }

    open spec fn spec_mtime(&self) -> u64 {
        self.mtime
    }

    fn kind(&self) -> (r: Result<Option<EntryKind>, CreatorError>)
        ensures
            match self.kind {
                FsEntryKind::Dir => r matches Ok(Some(EntryKind::Dir)),
                FsEntryKind::File(size, content) => r matches Ok(Some(EntryKind::File(s, c))) && s == size && c
                    == content,
                FsEntryKind::Link(target) => r matches Ok(Some(EntryKind::Link(t))) && t@ == target@,
                FsEntryKind::Other => r matches Ok(None),
            },
    {
        match &self.kind {
            FsEntryKind::Dir => Ok(Some(EntryKind::Dir)),
            FsEntryKind::File(size, content) => Ok(Some(EntryKind::File(*size, *content))),
            FsEntryKind::Link(target) => Ok(Some(EntryKind::Link(copy_bytes(target.as_slice())))),
            FsEntryKind::Other => Ok(None),
        }
    }

    fn path(&self) -> (r: &str)
        ensures
            r@ == self.arx_path@,
    {
        self.arx_path.as_str()
    }

    fn uid(&self) -> (r: u64)
        ensures
            r == self.uid,
    {
        self.uid
    }

    fn gid(&self) -> (r: u64)
        ensures
            r == self.gid,
    {
        self.gid
    }

    fn mode(&self) -> (r: u64)
        ensures
            r == self.mode,
    {
        self.mode
    }

    fn mtime(&self) -> (r: u64)
        ensures
            r == self.mtime,
    {
        self.mtime
    }
}

} // verus!
