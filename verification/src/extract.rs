//! The decisions of an extraction: which entries a filter lets through, what
//! to do with a file that exists already, where the extraction starts, and
//! how a content is written out.
use vstd::prelude::*;
use crate::arx::{is_format_error, is_not_found, Arx, Entry};
use crate::error::{ArxError, ExtractError, QueryError};
use crate::tree::ContentAddress;
use crate::flat::JbkKindView;
use crate::listing::{join_text, names_view, push_joined_text};
use crate::paths::{components_prefix, path_starts_with, rel_components};
use crate::ui::{from_utf8_lossy, utf8_lossy};
use crate::table::{lookup_sorted, table_lookup, EntryRange, TableLookup};

verus! {

// ---------------------------------------------------------------------------
// Filters.
// ---------------------------------------------------------------------------

/// Says which paths of the archive to extract.
pub trait FileFilter {
    /// Whether to extract `path`.
    fn accept(&self, path: &str) -> bool;

    /// Whether a refused directory is left without looking inside: `true` if
    /// nothing under a refused directory is extracted, `false` if something
    /// under it may still be.
    fn early_exit(&self) -> (r: bool)
        default_ensures
            r,
    {
        true
    }
}

/// Every path is extracted.
impl FileFilter for () {
    fn accept(&self, path: &str) -> (r: bool)
        ensures
            r,
    {
        true
    }

    fn early_exit(&self) -> (r: bool)
        ensures
            r,
    {
        true
    }
}

/// `RelativePath == RelativePath`: as the crate's source shows, two paths are
/// equal when their components are.
#[verifier::external_body]
fn path_eq(a: &str, b: &str) -> (r: bool)
    ensures
        r == (rel_components(a@) == rel_components(b@)),
{
    relative_path::RelativePath::new(a) == relative_path::RelativePath::new(b)
}

/// A set of paths: exactly these are extracted.
pub struct PathSet(pub Vec<String>);

impl FileFilter for PathSet {
    fn accept(&self, path: &str) -> (r: bool)
        ensures
            r == exists|i: int|
                0 <= i < self.0@.len() && rel_components(#[trigger] self.0@[i]@) == rel_components(path@),
    {
        let mut i: usize = 0;
        while i < self.0.len()
            invariant
                i <= self.0@.len(),
                forall|j: int| 0 <= j < i ==> rel_components(#[trigger] self.0@[j]@) != rel_components(path@),
            decreases self.0@.len() - i,
        {
            if path_eq(self.0[i].as_str(), path) {
                return true;
            }
            i = i + 1;
        }
        false
    }

    fn early_exit(&self) -> (r: bool)
        ensures
            r,
    {
        true
    }
}

/// The paths given as input, and all they hold: a path is extracted when it
/// is one of them, lies under one of them, or leads to one of them.
pub struct SimpleFileList(pub Vec<String>);

/// `path` is `accepted`, lies under it, or leads to it.
pub open spec fn related_paths(accepted: Seq<char>, path: Seq<char>) -> bool {
    ||| rel_components(accepted) == rel_components(path)
    ||| components_prefix(rel_components(path), rel_components(accepted))
    ||| components_prefix(rel_components(accepted), rel_components(path))
}

impl FileFilter for SimpleFileList {
    fn accept(&self, path: &str) -> (r: bool)
        ensures
            r == exists|i: int| 0 <= i < self.0@.len() && related_paths(#[trigger] self.0@[i]@, path@),
    {
        let mut i: usize = 0;
        while i < self.0.len()
            invariant
                i <= self.0@.len(),
                forall|j: int| 0 <= j < i ==> !related_paths(#[trigger] self.0@[j]@, path@),
            decreases self.0@.len() - i,
        {
            let accepted = self.0[i].as_str();
            if path_eq(accepted, path) || path_starts_with(accepted, path) || path_starts_with(path, accepted) {
                return true;
            }
            i = i + 1;
        }
        false
    }

    fn early_exit(&self) -> (r: bool)
        ensures
            !r,
    {
        false
    }
}

#[verifier::external_type_specification]
#[verifier::external_body]
pub struct ExPattern(glob::Pattern);

/// Whether `glob::Pattern::new` accepts a pattern.
pub uninterp spec fn glob_compiles(pattern: Seq<char>) -> bool;

/// Where and why `glob::Pattern::new` refuses a pattern.
pub uninterp spec fn glob_error(pattern: Seq<char>) -> (usize, Seq<char>);

/// Whether a path matches a pattern, by `glob::Pattern::matches_with` with
/// these options: case sensitive or not, `/` matched only by `/` or not, a
/// leading `.` matched only by `.` or not.
pub uninterp spec fn glob_matches(
    pattern: Seq<char>,
    path: Seq<char>,
    case_sensitive: bool,
    require_literal_separator: bool,
    require_literal_leading_dot: bool,
) -> bool;

/// Whether a path is extracted by a glob filter: matched case sensitively,
/// with `/` matched only by `/`, and a leading `.` matched by wildcards.
pub open spec fn path_matches(pattern: Seq<char>, path: Seq<char>) -> bool {
    glob_matches(pattern, path, true, true, false)
}

/// `glob::Pattern::new`: the compiled pattern, or where and why it is
/// refused. Which patterns compile, and the error, are named.
#[verifier::external_body]
fn compile_glob(pattern: &str) -> (r: Result<glob::Pattern, (usize, &'static str)>)
    ensures
        r is Ok == glob_compiles(pattern@),
        r matches Err(e) ==> (e.0, e.1@) == glob_error(pattern@),
{
    glob::Pattern::new(pattern).map_err(|e| (e.pos, e.msg))
}

/// A glob pattern: the paths that match it are extracted.
pub struct PatternFilter {
    pattern: glob::Pattern,
    source: String,
}

/// A glob pattern that `glob` refuses: the position near which it fails and
/// the reason.
pub struct PatternError {
    pub pos: usize,
    pub msg: &'static str,
}

/// `glob::Pattern::matches_with` on the pattern of `filter`, which was
/// compiled from `filter.source()`, with the options given: whether `path`
/// matches it, named.
#[verifier::external_body]
fn pattern_matches(
    filter: &PatternFilter,
    path: &str,
    case_sensitive: bool,
    require_literal_separator: bool,
    require_literal_leading_dot: bool,
) -> (r: bool)
    ensures
        r == glob_matches(
            filter.source(),
            path@,
            case_sensitive,
            require_literal_separator,
            require_literal_leading_dot,
        ),
{
    let options = glob::MatchOptions { case_sensitive, require_literal_separator, require_literal_leading_dot };
    filter.pattern.matches_with(path, options)
}

impl PatternFilter {
    /// The pattern, as given.
    pub closed spec fn source(&self) -> Seq<char> {
        self.source@
    }

    /// The filter of the glob `pattern`, or why it is refused.
    pub fn new(pattern: &str) -> (r: Result<PatternFilter, PatternError>)
        ensures
            match r {
                Ok(f) => glob_compiles(pattern@) && f.source() == pattern@,
                Err(e) => !glob_compiles(pattern@) && (e.pos, e.msg@) == glob_error(pattern@),
            },
    {
        match compile_glob(pattern) {
            Ok(p) => Ok(PatternFilter { pattern: p, source: pattern.to_owned() }),
            Err(e) => Err(PatternError { pos: e.0, msg: e.1 }),
        }
    }
}

impl FileFilter for PatternFilter {
    fn accept(&self, path: &str) -> (r: bool)
        ensures
            r == path_matches(self.source(), path@),
    {
        pattern_matches(self, path, true, true, false)
    }

    fn early_exit(&self) -> (r: bool)
        ensures
            !r,
    {
        false
    }
}

/// The filter an extraction was asked for.
pub enum ExtractFilter {
    /// The paths of a list, one per line of a file.
    List(PathSet),
    /// A glob pattern.
    Pattern(PatternFilter),
    /// The paths given as input, recursively.
    Files(SimpleFileList),
    /// Everything.
    All,
}

impl FileFilter for ExtractFilter {
    fn accept(&self, path: &str) -> (r: bool)
        ensures
            self matches ExtractFilter::All ==> r,
            self matches ExtractFilter::List(s) ==> r == exists|i: int|
                0 <= i < s.0@.len() && rel_components(#[trigger] s.0@[i]@) == rel_components(path@),
            self matches ExtractFilter::Pattern(p) ==> r == path_matches(p.source(), path@),
            self matches ExtractFilter::Files(f) ==> r == exists|i: int|
                0 <= i < f.0@.len() && related_paths(#[trigger] f.0@[i]@, path@),
    {
        match self {
            ExtractFilter::List(s) => s.accept(path),
            ExtractFilter::Pattern(p) => p.accept(path),
            ExtractFilter::Files(f) => f.accept(path),
            ExtractFilter::All => true,
        }
    }

    fn early_exit(&self) -> (r: bool)
        ensures
            r == (self is List || self is All),
    {
        match self {
            ExtractFilter::List(s) => s.early_exit(),
            ExtractFilter::Pattern(p) => p.early_exit(),
            ExtractFilter::Files(f) => f.early_exit(),
            ExtractFilter::All => ().early_exit(),
        }
    }
}

/// The filter for what an extraction was given: a list of paths first, then
/// a glob pattern, then paths to extract recursively; with none of them,
/// everything.
pub fn choose_filter(file_list: Option<Vec<String>>, glob: Option<&str>, files: Vec<String>) -> (r: Result<
    ExtractFilter,
    PatternError,
>)
    ensures
        match file_list {
            Some(l) => r matches Ok(ExtractFilter::List(s)) && s.0@ == l@,
            None => match glob {
                Some(g) => match r {
                    Ok(f) => f matches ExtractFilter::Pattern(p) && glob_compiles(g@) && p.source() == g@,
                    Err(e) => !glob_compiles(g@) && (e.pos, e.msg@) == glob_error(g@),
                },
                None => if files@.len() > 0 {
                    r matches Ok(ExtractFilter::Files(f)) && f.0@ == files@
                } else {
                    r matches Ok(ExtractFilter::All)
                },
            },
        },
{
    match file_list {
        Some(l) => Ok(ExtractFilter::List(PathSet(l))),
        None => match glob {
            Some(g) => match PatternFilter::new(g) {
                Ok(p) => Ok(ExtractFilter::Pattern(p)),
                Err(e) => Err(e),
            },
            None => {
                if files.len() > 0 {
                    Ok(ExtractFilter::Files(SimpleFileList(files)))
                } else {
                    Ok(ExtractFilter::All)
                }
            },
        },
    }
}

// ---------------------------------------------------------------------------
// What to do, entry by entry.
// ---------------------------------------------------------------------------

/// What to do with a file or a link that exists already where an entry is
/// extracted.
#[derive(Clone, Copy, PartialEq, Eq, Structural, Debug)]
pub enum Overwrite {
    /// Keep the existing one.
    Skip,
    /// Keep the existing one, and say so.
    Warn,
    /// Replace it if the entry is not older.
    Newer,
    /// Replace it.
    Overwrite,
    /// Stop with an error.
    Error,
}

/// The modification time of an existing file.
#[derive(Clone, Copy, PartialEq, Eq, Structural, Debug)]
pub enum ExistingTime {
    /// Before the epoch.
    BeforeEpoch,
    /// So long after the epoch.
    Since { secs: u64, nanos: u32 },
}

/// What is done with an existing file or link.
#[derive(Clone, Copy, PartialEq, Eq, Structural, Debug)]
pub enum ExistingAction {
    /// It is kept.
    Keep,
    /// It is kept, and a warning is printed.
    Warn,
    /// It is replaced by the entry.
    Replace,
    /// The extraction stops with an error.
    Fail,
}

/// An entry modified `mtime` seconds after the epoch is not older than
/// something modified at `existing`.
pub open spec fn not_older(mtime: u64, existing: ExistingTime) -> bool {
    match existing {
        ExistingTime::BeforeEpoch => true,
        ExistingTime::Since { secs, nanos } => mtime > secs || (mtime == secs && nanos == 0),
    }
}

/// What is done, under `overwrite`, with an existing file or link where an
/// entry modified `mtime` seconds after the epoch is extracted.
pub fn on_existing(overwrite: Overwrite, mtime: u64, existing: ExistingTime) -> (r: ExistingAction)
    ensures
        r == match overwrite {
            Overwrite::Skip => ExistingAction::Keep,
            Overwrite::Warn => ExistingAction::Warn,
            Overwrite::Newer => if not_older(mtime, existing) {
                ExistingAction::Replace
            } else {
                ExistingAction::Keep
            },
            Overwrite::Overwrite => ExistingAction::Replace,
            Overwrite::Error => ExistingAction::Fail,
        },
{
    match overwrite {
        Overwrite::Skip => ExistingAction::Keep,
        Overwrite::Warn => ExistingAction::Warn,
        Overwrite::Newer => {
            let newer = match existing {
                ExistingTime::BeforeEpoch => true,
                ExistingTime::Since { secs, nanos } => mtime > secs || (mtime == secs && nanos == 0),
            };
            if newer {
                ExistingAction::Replace
            } else {
                ExistingAction::Keep
            }
        },
        Overwrite::Overwrite => ExistingAction::Replace,
        Overwrite::Error => ExistingAction::Fail,
    }
}

/// What is done with a directory met during an extraction.
#[derive(Clone, Copy, PartialEq, Eq, Structural, Debug)]
pub enum DirStep {
    /// Create it and look inside.
    Create,
    /// Look inside without creating it.
    Enter,
    /// Leave it.
    Skip,
}

/// What is done with a directory the filter accepts or not.
pub fn on_directory(filter: &ExtractFilter, path: &str) -> (r: DirStep)
    ensures
        ({
            let accepted = match filter {
                ExtractFilter::All => true,
                ExtractFilter::List(s) => exists|i: int|
                    0 <= i < s.0@.len() && rel_components(#[trigger] s.0@[i]@) == rel_components(path@),
                ExtractFilter::Pattern(p) => path_matches(p.source(), path@),
                ExtractFilter::Files(f) => exists|i: int|
                    0 <= i < f.0@.len() && related_paths(#[trigger] f.0@[i]@, path@),
            };
            r == if accepted {
                DirStep::Create
            } else if filter is List || filter is All {
                DirStep::Skip
            } else {
                DirStep::Enter
            }
        }),
{
    if filter.accept(path) {
        DirStep::Create
    } else if filter.early_exit() {
        DirStep::Skip
    } else {
        DirStep::Enter
    }
}

/// The path, `/`-separated, of the entry named `name` (read as UTF-8, each
/// invalid sequence replaced) under the directories `names`.
pub fn entry_path(names: &Vec<String>, name: &[u8]) -> (r: String)
    ensures
        r@ == join_text(names_view(names@).push(utf8_lossy(name@))),
{
    let mut out = String::new();
    push_joined_text(names, &mut out);
    proof {
        reveal_strlit("/");
        assert(out@ =~= join_text(names_view(names@)));
    }
    if names.len() > 0 {
        out.append("/");
    }
    let text = from_utf8_lossy(name);
    out.append(text.as_str());
    proof {
        let parts = names_view(names@).push(utf8_lossy(name@));
        assert(parts.drop_last() =~= names_view(names@));
        if names@.len() == 0 {
            assert(out@ =~= utf8_lossy(name@));
        } else {
            assert(out@ =~= join_text(parts));
        }
    }
    out
}

/// Goes down into the directory named `name` and gives its path.
pub fn enter_dir(names: &mut Vec<String>, name: &[u8]) -> (r: String)
    ensures
        names_view(final(names)@) == names_view(old(names)@).push(utf8_lossy(name@)),
        r@ == join_text(names_view(final(names)@)),
{
    let path = entry_path(names, name);
    names.push(from_utf8_lossy(name));
    proof {
        assert(names_view(names@) =~= names_view(old(names)@).push(utf8_lossy(name@)));
    }
    path
}

/// Goes up out of the last directory entered, if any.
pub fn leave_dir(names: &mut Vec<String>)
    ensures
        old(names)@.len() == 0 ==> final(names)@.len() == 0,
        old(names)@.len() > 0 ==> names_view(final(names)@) == names_view(old(names)@).drop_last(),
{
    if names.len() > 0 {
        names.pop();
        proof {
            assert(names_view(names@) =~= names_view(old(names)@).drop_last());
        }
    }
}

/// The size of the next piece of a content of `size` bytes written from
/// `offset`: what is left, at most a block of 4 KiB.
pub fn next_chunk(size: u64, offset: u64) -> (r: u64)
    requires
        offset <= size,
    ensures
        r == if size - offset < 4096 { size - offset } else { 4096 },
        offset + r <= size,
        offset < size ==> r > 0,
{
    let left = size - offset;
    if left < 4096 {
        left
    } else {
        4096
    }
}

/// How an extraction is made: where to, which items (none for all), with
/// which filter, whether items that are directories are extracted with
/// what is under them, whether progress is printed, and what to do with
/// files that exist already.
pub struct ExtractBuilder<O, F> {
    pub outdir: O,
    pub items: Vec<String>,
    pub filter: F,
    pub recursive: bool,
    pub progress: bool,
    pub overwrite: Overwrite,
}

impl<O> ExtractBuilder<O, ()> {
    /// An extraction into `outdir` of everything, recursively, without
    /// progress, warning about files that exist already.
    pub fn new(outdir: O) -> (r: Self)
        ensures
            r.outdir == outdir,
            r.items@.len() == 0,
            r.recursive,
            !r.progress,
            r.overwrite == Overwrite::Warn,
    {
        ExtractBuilder { outdir, items: Vec::new(), filter: (), recursive: true, progress: false, overwrite: Overwrite::Warn }
    }

    /// The same extraction, through `filter`.
    pub fn filter<G: FileFilter>(self, filter: G) -> (r: ExtractBuilder<O, G>)
        ensures
            r.filter == filter,
            r.outdir == self.outdir,
            r.items == self.items,
            r.recursive == self.recursive,
            r.progress == self.progress,
            r.overwrite == self.overwrite,
    {
        ExtractBuilder {
            outdir: self.outdir,
            items: self.items,
            filter,
            recursive: self.recursive,
            progress: self.progress,
            overwrite: self.overwrite,
        }
    }
}

impl<O, F> ExtractBuilder<O, F> {
    /// The same extraction, of `items` only; directories among them with what
    /// is under them if `recursive`.
    pub fn items(self, items: Vec<String>, recursive: bool) -> (r: Self)
        ensures
            r.items == items,
            r.recursive == recursive,
            r.outdir == self.outdir,
            r.filter == self.filter,
            r.progress == self.progress,
            r.overwrite == self.overwrite,
    {
        ExtractBuilder { items, recursive, ..self }
    }

    /// The same extraction, doing `overwrite` with files that exist already.
    pub fn overwrite(self, overwrite: Overwrite) -> (r: Self)
        ensures
            r.overwrite == overwrite,
            r.outdir == self.outdir,
            r.items == self.items,
            r.filter == self.filter,
            r.recursive == self.recursive,
            r.progress == self.progress,
    {
        ExtractBuilder { overwrite, ..self }
    }

    /// The same extraction, printing progress or not.
    pub fn progress(self, progress: bool) -> (r: Self)
        ensures
            r.progress == progress,
            r.outdir == self.outdir,
            r.items == self.items,
            r.filter == self.filter,
            r.recursive == self.recursive,
            r.overwrite == self.overwrite,
    {
        ExtractBuilder { progress, ..self }
    }
}

/// The range an extraction starts from: the archive's root, or the
/// directory at `root`, which must be one.
pub fn extract_root(arx: &Arx, root: Option<&str>) -> (r: Result<EntryRange, ExtractError>)
    ensures
        root is None ==> r == Ok::<EntryRange, ExtractError>(arx.root),
        root matches Some(p) ==> (r matches Err(ExtractError::RootNotDir { path }) ==> path@ == p@),
        root matches Some(p) ==> (r matches Ok(range) ==> exists|i: int|
            0 <= i < arx.table().len() && arx.table()[i].kind == (JbkKindView::Dir {
                first_child: range.first,
                nb_children: range.count,
            })),
        root matches Some(p) ==> (rel_components(p@).len() > 0 && lookup_sorted(
            arx.table(),
            arx.root.first as int,
            arx.root.count as int,
            rel_components(p@),
        )) ==> match table_lookup(
            arx.table(),
            arx.root.first as int,
            arx.root.count as int,
            rel_components(p@),
        ) {
            TableLookup::Found(i) => match arx.table()[i].kind {
                JbkKindView::Dir { first_child, nb_children } => r == Ok::<EntryRange, ExtractError>(
                    EntryRange { first: first_child, count: nb_children },
                ),
                _ => r matches Err(ExtractError::RootNotDir { path }) && path@ == p@,
            },
            TableLookup::NotFound => r matches Err(ExtractError::ArxError(ArxError::BaseError(e))) && is_not_found(
                QueryError::BaseError(e),
            ),
            TableLookup::Malformed => r matches Err(ExtractError::ArxError(ArxError::BaseError(e)))
                && is_format_error(QueryError::BaseError(e)),
        },
{
    match root {
        None => Ok(arx.root),
        Some(p) => match arx.get_entry(p) {
            Ok(Entry::Dir(range, _)) => Ok(range),
            Ok(_) => Err(ExtractError::RootNotDir { path: p.to_owned() }),
            Err(e) => Err(ExtractError::ArxError(ArxError::from_query(e))),
        },
    }
}

// ---------------------------------------------------------------------------
// Printing one entry.
// ---------------------------------------------------------------------------

/// Why an entry's content cannot be printed.
pub enum DumpError {
    /// The entry cannot be found or read.
    Arx(QueryError),
    /// The entry is a directory.
    FoundDirectory,
    /// The entry is a link.
    FoundLink,
}

/// The address of the content of the file at `path`, to print it.
pub fn dump_target(arx: &Arx, path: &str) -> (r: Result<ContentAddress, DumpError>)
    ensures
        r matches Ok(c) ==> exists|i: int|
            0 <= i < arx.table().len() && ((#[trigger] arx.table()[i]).kind matches JbkKindView::File {
                content,
                ..
            } && content == c),
        (rel_components(path@).len() > 0 && lookup_sorted(
            arx.table(),
            arx.root.first as int,
            arx.root.count as int,
            rel_components(path@),
        )) ==> match table_lookup(
            arx.table(),
            arx.root.first as int,
            arx.root.count as int,
            rel_components(path@),
        ) {
            TableLookup::Found(i) => match arx.table()[i].kind {
                JbkKindView::File { content, .. } => r == Ok::<ContentAddress, DumpError>(content),
                JbkKindView::Dir { .. } => r matches Err(DumpError::FoundDirectory),
                JbkKindView::Link { .. } => r matches Err(DumpError::FoundLink),
            },
            TableLookup::NotFound => r matches Err(DumpError::Arx(e)) && is_not_found(e),
            TableLookup::Malformed => r matches Err(DumpError::Arx(e)) && is_format_error(e),
        },
{
    match arx.get_entry(path) {
        Ok(Entry::File(f)) => Ok(f.content),
        Ok(Entry::Dir(_, _)) => Err(DumpError::FoundDirectory),
        Ok(Entry::Link(_)) => Err(DumpError::FoundLink),
        Err(e) => Err(DumpError::Arx(e)),
    }
}

} // verus!
