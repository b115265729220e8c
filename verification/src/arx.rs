//! Reading an archive: its entry store, entries by index or by path, and a
//! walk over its tree.
use vstd::prelude::*;
use crate::create::{decode_parent, decode_parent_spec, encode_parent};
use crate::error::{ArxFormatError, BaseError, QueryError};
use crate::flat::{view_jbk, JbkEntry, JbkEntryView, JbkKind, JbkKindView};
use crate::paths::{path_components, rel_components};
use crate::table::{
    lookup_path, lookup_sorted, path_view, table_lookup, EntryRange, LookupFailure, TableLookup,
};
use crate::tree::ContentAddress;

verus! {

// ---------------------------------------------------------------------------
// Stored values.
// ---------------------------------------------------------------------------

/// What the variant of a stored entry holds, as stored.
pub enum StoredKind {
    File { content: ContentAddress, size: u64 },
    Dir { first_child: u64, nb_children: u64 },
    Link { target: Vec<u8> },
}

/// The property values of a stored entry, as read from the archive.
pub struct StoredEntry {
    pub name: Vec<u8>,
    pub parent: u64,
    pub owner: u64,
    pub group: u64,
    pub rights: u64,
    pub mtime: u64,
    pub kind: StoredKind,
}

/// The entry that stored values read back as. Indices are read as `u32`
/// (higher bits are dropped).
pub open spec fn decode_spec(s: StoredEntry) -> JbkEntryView {
    JbkEntryView {
        parent: decode_parent_spec(s.parent),
        name: s.name@,
        owner: s.owner,
        group: s.group,
        rights: s.rights,
        mtime: s.mtime,
        kind: match s.kind {
            StoredKind::File { content, size } => JbkKindView::File { content, size },
            StoredKind::Dir { first_child, nb_children } => JbkKindView::Dir {
                first_child: first_child as u32,
                nb_children: nb_children as u32,
            },
            StoredKind::Link { target } => JbkKindView::Link { target: target@ },
        },
    }
}

/// Reads the stored values of an entry back.
pub fn decode_entry(s: StoredEntry) -> (r: JbkEntry)
    ensures
        r@ == decode_spec(s),
{
    let parent = decode_parent(s.parent);
    let kind = match s.kind {
        StoredKind::File { content, size } => JbkKind::File { content, size },
        StoredKind::Dir { first_child, nb_children } => JbkKind::Dir {
            first_child: first_child as u32,
            nb_children: nb_children as u32,
        },
        StoredKind::Link { target } => JbkKind::Link { target },
    };
    JbkEntry {
        parent,
        name: s.name,
        owner: s.owner,
        group: s.group,
        rights: s.rights,
        mtime: s.mtime,
        kind,
    }
}

/// The stored values of an entry, as `JbkEntry::value` gives them.
pub open spec fn encode_spec(e: JbkEntryView) -> StoredEntryView {
    StoredEntryView {
        name: e.name,
        parent: encode_parent(e.parent),
        owner: e.owner,
        group: e.group,
        rights: e.rights,
        mtime: e.mtime,
        kind: match e.kind {
            JbkKindView::File { content, size } => StoredKindView::File { content, size },
            JbkKindView::Dir { first_child, nb_children } => StoredKindView::Dir {
                first_child: first_child as u64,
                nb_children: nb_children as u64,
            },
            JbkKindView::Link { target } => StoredKindView::Link { target },
        },
    }
}

/// The model of what a stored variant holds.
pub enum StoredKindView {
    File { content: ContentAddress, size: u64 },
    Dir { first_child: u64, nb_children: u64 },
    Link { target: Seq<u8> },
}

/// The model of stored values.
pub struct StoredEntryView {
    pub name: Seq<u8>,
    pub parent: u64,
    pub owner: u64,
    pub group: u64,
    pub rights: u64,
    pub mtime: u64,
    pub kind: StoredKindView,
}

impl View for StoredEntry {
    type V = StoredEntryView;

    open spec fn view(&self) -> StoredEntryView {
        StoredEntryView {
            name: self.name@,
            parent: self.parent,
            owner: self.owner,
            group: self.group,
            rights: self.rights,
            mtime: self.mtime,
            kind: match self.kind {
                StoredKind::File { content, size } => StoredKindView::File { content, size },
                StoredKind::Dir { first_child, nb_children } => StoredKindView::Dir {
                    first_child,
                    nb_children,
                },
                StoredKind::Link { target } => StoredKindView::Link { target: target@ },
            },
        }
    }
}

/// What is stored for an entry reads back as that entry.
pub proof fn lemma_stored_roundtrip(e: JbkEntryView, s: StoredEntry)
    requires
        s@ == encode_spec(e),
    ensures
        decode_spec(s) == e,
{
    crate::create::lemma_parent_roundtrip(e.parent);
    match e.kind {
        JbkKindView::Dir { first_child, nb_children } => {
            let f: u64 = first_child as u64;
            let n: u64 = nb_children as u64;
            assert((f as u32) == first_child) by (bit_vector)
                requires
                    f == first_child as u64,
            ;
            assert((n as u32) == nb_children) by (bit_vector)
                requires
                    n == nb_children as u64,
            ;
        },
        _ => {},
    }
}

// ---------------------------------------------------------------------------
// Entries as read.
// ---------------------------------------------------------------------------

/// What all entries have: where they are, their name and attributes.
#[derive(Clone)]
pub struct CommonPart {
    pub idx: u32,
    pub path: Vec<u8>,
    pub parent: Option<u32>,
    pub owner: u32,
    pub group: u32,
    pub rights: u8,
    pub mtime: u64,
}

/// A file entry.
#[derive(Clone)]
pub struct FileEntry {
    pub common: CommonPart,
    pub content: ContentAddress,
    pub size: u64,
}

/// A link entry.
#[derive(Clone)]
pub struct Link {
    pub common: CommonPart,
    pub target: Vec<u8>,
}

/// A directory entry.
#[derive(Clone)]
pub struct Dir {
    pub common: CommonPart,
    pub range: EntryRange,
}

/// Two file entries hold the same: index, name, parent, attributes,
/// content and size.
pub open spec fn same_file(a: FileEntry, b: FileEntry) -> bool {
    &&& common_view(a.common) == common_view(b.common)
    &&& a.content == b.content
    &&& a.size == b.size
}

/// A copy of a file entry.
pub fn copy_file(f: &FileEntry) -> (r: FileEntry)
    ensures
        same_file(r, *f),
{
    FileEntry {
        common: CommonPart {
            idx: f.common.idx,
            path: crate::bytes::copy_bytes(f.common.path.as_slice()),
            parent: f.common.parent,
            owner: f.common.owner,
            group: f.common.group,
            rights: f.common.rights,
            mtime: f.common.mtime,
        },
        content: f.content,
        size: f.size,
    }
}

/// An entry as read.
pub enum Entry {
    File(FileEntry),
    Link(Link),
    Dir(EntryRange, Dir),
}

/// An entry as read, with everything it holds.
pub type FullEntry = Entry;

impl FileEntry {
    pub fn content(&self) -> (r: ContentAddress)
        ensures
            r == self.content,
    {
        self.content
    }

    pub fn size(&self) -> (r: u64)
        ensures
            r == self.size,
    {
        self.size
    }
}

impl Link {
    pub fn target(&self) -> (r: &Vec<u8>)
        ensures
            r@ == self.target@,
    {
        &self.target
    }
}

impl Dir {
    pub fn range(&self) -> (r: EntryRange)
        ensures
            r == self.range,
    {
        self.range
    }
}

/// The common part of an entry as read from its stored form at `idx`: the
/// owner and group are read as `u32` and the rights as `u8` (higher bits are
/// dropped).
pub open spec fn common_of(e: JbkEntryView, idx: u32) -> (u32, Seq<u8>, Option<u32>, u32, u32, u8, u64) {
    (idx, e.name, e.parent, e.owner as u32, e.group as u32, e.rights as u8, e.mtime)
}

/// The common part of an entry, as a tuple.
pub open spec fn common_view(c: CommonPart) -> (u32, Seq<u8>, Option<u32>, u32, u32, u8, u64) {
    (c.idx, c.path@, c.parent, c.owner, c.group, c.rights, c.mtime)
}

/// `r` is the entry read from the stored entry `e` at `idx`.
pub open spec fn read_as(r: Entry, e: JbkEntryView, idx: u32) -> bool {
    match (r, e.kind) {
        (Entry::File(f), JbkKindView::File { content, size }) => common_view(f.common) == common_of(e, idx)
            && f.content == content && f.size == size,
        (Entry::Link(l), JbkKindView::Link { target }) => common_view(l.common) == common_of(e, idx)
            && l.target@ == target,
        (Entry::Dir(range, d), JbkKindView::Dir { first_child, nb_children }) => common_view(d.common)
            == common_of(e, idx) && range == (EntryRange { first: first_child, count: nb_children })
            && d.range == range,
        _ => false,
    }
}

impl Entry {
    /// The entry read from a stored entry at `idx`.
    pub fn from_stored(e: &JbkEntry, idx: u32) -> (r: Entry)
        ensures
            read_as(r, e@, idx),
    {
        let common = CommonPart {
            idx,
            path: crate::bytes::copy_bytes(e.name.as_slice()),
            parent: e.parent,
            owner: e.owner as u32,
            group: e.group as u32,
            rights: e.rights as u8,
            mtime: e.mtime,
        };
        match &e.kind {
            JbkKind::File { content, size } => Entry::File(FileEntry { common, content: *content, size: *size }),
            JbkKind::Link { target } => Entry::Link(
                Link { common, target: crate::bytes::copy_bytes(target.as_slice()) },
            ),
            JbkKind::Dir { first_child, nb_children } => {
                let range = EntryRange { first: *first_child, count: *nb_children };
                Entry::Dir(range, Dir { common, range })
            },
        }
    }

    /// The common part of the entry.
    pub fn common(&self) -> (r: &CommonPart)
        ensures
            match self {
                Entry::File(f) => *r == f.common,
                Entry::Link(l) => *r == l.common,
                Entry::Dir(_, d) => *r == d.common,
            },
    {
        match self {
            Entry::File(f) => &f.common,
            Entry::Link(l) => &l.common,
            Entry::Dir(_, d) => &d.common,
        }
    }

    /// Whether the entry is a file.
    pub fn is_file(&self) -> (r: bool)
        ensures
            r == self is File,
    {
        matches!(self, Entry::File(_))
    }

    /// Whether the entry is a link.
    pub fn is_link(&self) -> (r: bool)
        ensures
            r == self is Link,
    {
        matches!(self, Entry::Link(_))
    }

    /// Whether the entry is a directory.
    pub fn is_dir(&self) -> (r: bool)
        ensures
            r == self is Dir,
    {
        matches!(self, Entry::Dir(..))
    }
}

// ---------------------------------------------------------------------------
// The archive.
// ---------------------------------------------------------------------------

/// An archive, as read: all its entries in index order, and the range of the
/// entries at its root.
pub struct Arx {
    pub entries: Vec<JbkEntry>,
    pub root: EntryRange,
}

/// The error of a range that lies out of the entry store.
pub open spec fn range_error() -> QueryError {
    QueryError::BaseError(BaseError::ArxFormatError(ArxFormatError("Entry range out of the entry store")))
}

/// The error of a path that names no entry: the container's error "Cannot
/// found entry".
pub open spec fn is_not_found(e: QueryError) -> bool {
    e matches QueryError::BaseError(BaseError::Jbk(m)) && m@ == "Cannot found entry"@
}

/// The error of a path that names no entry.
fn not_found() -> (e: QueryError)
    ensures
        is_not_found(e),
{
    QueryError::BaseError(BaseError::Jbk("Cannot found entry".to_string()))
}

/// The failure to read an index as an error.
pub open spec fn is_format_error(e: QueryError) -> bool {
    e matches QueryError::BaseError(BaseError::ArxFormatError(_))
}

impl Arx {
    /// The model of the entries.
    pub open spec fn table(&self) -> Seq<JbkEntryView> {
        view_jbk(self.entries@)
    }

    /// The entry at index `idx`.
    pub fn get_entry_at_idx(&self, idx: u32) -> (r: Result<Entry, QueryError>)
        ensures
            match r {
                Ok(e) => idx < self.entries@.len() && read_as(e, self.table()[idx as int], idx),
                Err(e) => idx >= self.entries@.len() && is_format_error(e),
            },
    {
        if (idx as usize) < self.entries.len() {
            proof {
                assert(self.table()[idx as int] == self.entries@[idx as int]@);
            }
            Ok(Entry::from_stored(&self.entries[idx as usize], idx))
        } else {
            Err(QueryError::BaseError(BaseError::ArxFormatError(ArxFormatError("Entry index out of the entry store"))))
        }
    }

    /// The entries of a range, in index order.
    pub fn entries_in(&self, range: EntryRange) -> (r: Result<Vec<Entry>, QueryError>)
        ensures
            match r {
                Ok(v) => range.first + range.count <= self.entries@.len() && range.first + range.count <= u32::MAX && v@.len() == range.count
                    && forall|k: int|
                    0 <= k < range.count ==> read_as(
                        #[trigger] v@[k],
                        self.table()[range.first + k],
                        (range.first + k) as u32,
                    ),
                Err(e) => (range.first + range.count > self.entries@.len() || range.first + range.count > u32::MAX) && e
                    == range_error(),
            },
    {
        if range.first as u64 + range.count as u64 > self.entries.len() as u64 || range.first as u64 + range.count as u64 > 0xffff_ffffu64 {
            return Err(QueryError::BaseError(BaseError::ArxFormatError(ArxFormatError("Entry range out of the entry store"))));
        }
        let mut v: Vec<Entry> = Vec::new();
        let mut k: u32 = 0;
        while k < range.count
            invariant
                range.first + range.count <= self.entries@.len(),
                range.first + range.count <= u32::MAX,
                k <= range.count,
                v@.len() == k,
                forall|j: int|
                    0 <= j < k ==> read_as(#[trigger] v@[j], self.table()[range.first + j], (range.first + j) as u32),
            decreases range.count - k,
        {
            let idx = range.first + k;
            proof {
                assert(self.table()[idx as int] == self.entries@[idx as int]@);
            }
            v.push(Entry::from_stored(&self.entries[idx as usize], idx));
            k = k + 1;
        }
        Ok(v)
    }

    /// The entry at the end of `path`, given as its components, from the
    /// entries of `range`.
    fn entry_by_components_in(&self, path: &[Vec<u8>], range: EntryRange) -> (r: Result<Entry, QueryError>)
        requires
            path@.len() > 0,
        ensures
            r matches Ok(e) ==> (exists|i: int| 0 <= i < self.entries@.len() && read_as(e, self.table()[i], i as u32)
                && self.table()[i].name == path@.last()@),
            lookup_sorted(self.table(), range.first as int, range.count as int, path_view(path@))
                ==> match table_lookup(self.table(), range.first as int, range.count as int, path_view(path@)) {
                TableLookup::Found(i) => r matches Ok(e) && read_as(e, self.table()[i], i as u32),
                TableLookup::NotFound => r matches Err(e) && is_not_found(e),
                TableLookup::Malformed => r matches Err(e) && is_format_error(e),
            },
    {
        match lookup_path(&self.entries, range, path) {
            Ok(i) => {
                proof {
                    assert(self.table()[i as int] == self.entries@[i as int]@);
                }
                Ok(Entry::from_stored(&self.entries[i as usize], i))
            },
            Err(LookupFailure::NotFound) => Err(not_found()),
            Err(LookupFailure::Malformed) => Err(
                QueryError::BaseError(BaseError::ArxFormatError(ArxFormatError("Entry range out of the entry store"))),
            ),
        }
    }

    /// The entry at the end of `path`, given as its components, from the root.
    pub fn get_entry_by_components(&self, path: &[Vec<u8>]) -> (r: Result<Entry, QueryError>)
        requires
            path@.len() > 0,
        ensures
            r matches Ok(e) ==> (exists|i: int| 0 <= i < self.entries@.len() && read_as(e, self.table()[i], i as u32)
                && self.table()[i].name == path@.last()@),
            lookup_sorted(self.table(), self.root.first as int, self.root.count as int, path_view(path@))
                ==> match table_lookup(self.table(), self.root.first as int, self.root.count as int, path_view(path@)) {
                TableLookup::Found(i) => r matches Ok(e) && read_as(e, self.table()[i], i as u32),
                TableLookup::NotFound => r matches Err(e) && is_not_found(e),
                TableLookup::Malformed => r matches Err(e) && is_format_error(e),
            },
    {
        self.entry_by_components_in(path, self.root)
    }

    /// The entry at `path` (relative, `/`-separated) from the entries of
    /// `range`. A path without a component names no entry.
    pub fn get_entry_in_range(&self, path: &str, range: EntryRange) -> (r: Result<Entry, QueryError>)
        ensures
            rel_components(path@).len() == 0 ==> (r matches Err(e) && is_not_found(e)),
            r matches Ok(e) ==> (exists|i: int| 0 <= i < self.entries@.len() && read_as(e, self.table()[i], i as u32)
                && self.table()[i].name == rel_components(path@).last()),
            (rel_components(path@).len() > 0 && lookup_sorted(
                self.table(),
                range.first as int,
                range.count as int,
                rel_components(path@),
            )) ==> match table_lookup(
                self.table(),
                range.first as int,
                range.count as int,
                rel_components(path@),
            ) {
                TableLookup::Found(i) => r matches Ok(e) && read_as(e, self.table()[i], i as u32),
                TableLookup::NotFound => r matches Err(e) && is_not_found(e),
                TableLookup::Malformed => r matches Err(e) && is_format_error(e),
            },
    {
        let components = path_components(path);
        proof {
            assert(path_view(components@) =~= rel_components(path@));
        }
        if components.len() == 0 {
            return Err(not_found());
        }
        proof {
            assert(components@.last()@ == rel_components(path@).last());
        }
        self.entry_by_components_in(components.as_slice(), range)
    }

    /// The entry at `path` (relative, `/`-separated) from the root. A path
    /// without a component names no entry.
    pub fn get_entry(&self, path: &str) -> (r: Result<Entry, QueryError>)
        ensures
            rel_components(path@).len() == 0 ==> (r matches Err(e) && is_not_found(e)),
            r matches Ok(e) ==> (exists|i: int| 0 <= i < self.entries@.len() && read_as(e, self.table()[i], i as u32)
                && self.table()[i].name == rel_components(path@).last()),
            (rel_components(path@).len() > 0 && lookup_sorted(
                self.table(),
                self.root.first as int,
                self.root.count as int,
                rel_components(path@),
            )) ==> match table_lookup(
                self.table(),
                self.root.first as int,
                self.root.count as int,
                rel_components(path@),
            ) {
                TableLookup::Found(i) => r matches Ok(e) && read_as(e, self.table()[i], i as u32),
                TableLookup::NotFound => r matches Err(e) && is_not_found(e),
                TableLookup::Malformed => r matches Err(e) && is_format_error(e),
            },
    {
        self.get_entry_in_range(path, self.root)
    }
}


// ---------------------------------------------------------------------------
// Walking the tree.
// ---------------------------------------------------------------------------

/// The common part of an entry, as a tuple: index, name, parent, owner,
/// group, rights and mtime.
pub type CommonView = (u32, Seq<u8>, Option<u32>, u32, u32, u8, u64);

/// What an operator is handed of a file entry.
pub open spec fn file_view(f: FileEntry) -> (CommonView, ContentAddress, u64) {
    (common_view(f.common), f.content, f.size)
}

/// What an operator is handed of a link entry.
pub open spec fn link_view(l: Link) -> (CommonView, Seq<u8>) {
    (common_view(l.common), l.target@)
}

/// What an operator is handed of a directory entry.
pub open spec fn dir_view(d: Dir) -> (CommonView, EntryRange) {
    (common_view(d.common), d.range)
}

/// What a walk over the tree does at each entry. Each call's effect on the
/// context, and its result, is given by the operator's spec functions; an
/// operator that does not define them says nothing of what it does.
pub trait Operator<Context> {
    type Error;

    open spec fn start_spec(&self, c: Context) -> (Context, Result<(), Self::Error>) {
        arbitrary()
    }

    open spec fn stop_spec(&self, c: Context) -> (Context, Result<(), Self::Error>) {
        arbitrary()
    }

    open spec fn enter_spec(&self, c: Context, d: (CommonView, EntryRange)) -> (Context, Result<bool, Self::Error>) {
        arbitrary()
    }

    open spec fn exit_spec(&self, c: Context, d: (CommonView, EntryRange)) -> (Context, Result<(), Self::Error>) {
        arbitrary()
    }

    open spec fn file_spec(&self, c: Context, f: (CommonView, ContentAddress, u64)) -> (Context, Result<(), Self::Error>) {
        arbitrary()
    }

    open spec fn link_spec(&self, c: Context, l: (CommonView, Seq<u8>)) -> (Context, Result<(), Self::Error>) {
        arbitrary()
    }

    fn on_start(&self, context: &mut Context) -> (r: Result<(), Self::Error>)
        ensures
            (*final(context), r) == self.start_spec(*old(context)),
    ;

    fn on_stop(&self, context: &mut Context) -> (r: Result<(), Self::Error>)
        ensures
            (*final(context), r) == self.stop_spec(*old(context)),
    ;

    /// Whether to walk into the directory.
    fn on_directory_enter(&self, context: &mut Context, entry: &Dir) -> (r: Result<bool, Self::Error>)
        ensures
            (*final(context), r) == self.enter_spec(*old(context), dir_view(*entry)),
    ;

    fn on_directory_exit(&self, context: &mut Context, entry: &Dir) -> (r: Result<(), Self::Error>)
        ensures
            (*final(context), r) == self.exit_spec(*old(context), dir_view(*entry)),
    ;

    fn on_file(&self, context: &mut Context, entry: &FileEntry) -> (r: Result<(), Self::Error>)
        ensures
            (*final(context), r) == self.file_spec(*old(context), file_view(*entry)),
    ;

    fn on_link(&self, context: &mut Context, entry: &Link) -> (r: Result<(), Self::Error>)
        ensures
            (*final(context), r) == self.link_spec(*old(context), link_view(*entry)),
    ;
}

/// Why a walk stopped.
pub enum WalkError<E> {
    /// The archive could not be read.
    Base(QueryError),
    /// The operator failed.
    Operator(E),
}

/// Every range met walking down from the range `[first, first + count)` lies
/// in the store, and no directory is more than `depth` levels down.
pub open spec fn walkable(t: Seq<JbkEntryView>, first: int, count: int, depth: nat) -> bool
    decreases depth,
{
    &&& first + count <= t.len()
    &&& first + count <= u32::MAX
    &&& 0 <= first
    &&& 0 <= count
    &&& forall|i: int|
        first <= i < first + count ==> match #[trigger] t[i].kind {
            JbkKindView::Dir { first_child, nb_children } => depth > 0 && walkable(
                t,
                first_child as int,
                nb_children as int,
                (depth - 1) as nat,
            ),
            _ => true,
        }
}

/// The error of directories nested deeper than the store has entries.
pub open spec fn loop_error() -> QueryError {
    QueryError::BaseError(BaseError::ArxFormatError(ArxFormatError("Directories of the entry store loop")))
}

/// The range `[first, first + count)` lies in the store.
pub open spec fn range_in_store(t: Seq<JbkEntryView>, first: int, count: int) -> bool {
    first + count <= t.len() && first + count <= u32::MAX
}

/// The walk over the entries `k` to `count` of the range from `first`,
/// going at most `depth` directories down, from the context `c`: the final
/// context and the outcome. Each entry in index order is handed to the
/// operator; a directory is walked into when the operator asks for it,
/// between its entering and its leaving; the first error stops the walk.
pub open spec fn walk_entries_spec<C, O: Operator<C>>(
    op: O,
    t: Seq<JbkEntryView>,
    first: int,
    count: int,
    k: int,
    c: C,
    depth: nat,
) -> (C, Result<(), WalkError<O::Error>>)
    decreases depth, count - k,
{
    if k >= count {
        (c, Ok(()))
    } else {
        let i = first + k;
        let e = t[i];
        match e.kind {
            JbkKindView::File { content, size } => {
                let (c1, r) = op.file_spec(c, (common_of(e, i as u32), content, size));
                match r {
                    Err(x) => (c1, Err(WalkError::Operator(x))),
                    Ok(_) => walk_entries_spec(op, t, first, count, k + 1, c1, depth),
                }
            },
            JbkKindView::Link { target } => {
                let (c1, r) = op.link_spec(c, (common_of(e, i as u32), target));
                match r {
                    Err(x) => (c1, Err(WalkError::Operator(x))),
                    Ok(_) => walk_entries_spec(op, t, first, count, k + 1, c1, depth),
                }
            },
            JbkKindView::Dir { first_child, nb_children } => {
                let dv = (common_of(e, i as u32), EntryRange { first: first_child, count: nb_children });
                let (c1, r) = op.enter_spec(c, dv);
                match r {
                    Err(x) => (c1, Err(WalkError::Operator(x))),
                    Ok(enter) => {
                        let (c2, r2) = if !enter {
                            (c1, Ok(()))
                        } else if depth == 0 {
                            (c1, Err(WalkError::Base(loop_error())))
                        } else if !range_in_store(t, first_child as int, nb_children as int) {
                            (c1, Err(WalkError::Base(range_error())))
                        } else {
                            walk_entries_spec(op, t, first_child as int, nb_children as int, 0, c1, (depth - 1) as nat)
                        };
                        match r2 {
                            Err(x) => (c2, Err(x)),
                            Ok(_) => {
                                let (c3, r3) = op.exit_spec(c2, dv);
                                match r3 {
                                    Err(x) => (c3, Err(WalkError::Operator(x))),
                                    Ok(_) => walk_entries_spec(op, t, first, count, k + 1, c3, depth),
                                }
                            },
                        }
                    },
                }
            },
        }
    }
}

/// A directory handed to the operator is always left before the walk goes
/// on to the next entry of its range: whether the operator declines to walk
/// into it, or walks into it and what is below it is walked without error,
/// the walk goes on to the next entry from what leaving the directory gives,
/// or stops with the error leaving it gave.
pub proof fn law_entered_directories_are_left<C, O: Operator<C>>(
    op: O,
    t: Seq<JbkEntryView>,
    first: int,
    count: int,
    k: int,
    c: C,
    depth: nat,
)
    requires
        0 <= k < count,
        t[first + k].kind is Dir,
    ensures
        ({
            let e = t[first + k];
            let dv = (
                common_of(e, (first + k) as u32),
                EntryRange { first: e.kind->first_child, count: e.kind->nb_children },
            );
            let entered = op.enter_spec(c, dv);
            let walked = walk_entries_spec(op, t, first, count, k, c, depth);
            let below = walk_entries_spec(
                op,
                t,
                e.kind->first_child as int,
                e.kind->nb_children as int,
                0,
                entered.0,
                (depth - 1) as nat,
            );
            &&& entered.1 == Ok::<bool, O::Error>(false) ==> match op.exit_spec(entered.0, dv) {
                (c3, Ok(_)) => walked == walk_entries_spec(op, t, first, count, k + 1, c3, depth),
                (c3, Err(x)) => walked == (c3, Err::<(), WalkError<O::Error>>(WalkError::Operator(x))),
            }
            &&& (entered.1 == Ok::<bool, O::Error>(true) && depth > 0 && range_in_store(
                t,
                e.kind->first_child as int,
                e.kind->nb_children as int,
            ) && below.1 is Ok) ==> match op.exit_spec(below.0, dv) {
                (c3, Ok(_)) => walked == walk_entries_spec(op, t, first, count, k + 1, c3, depth),
                (c3, Err(x)) => walked == (c3, Err::<(), WalkError<O::Error>>(WalkError::Operator(x))),
            }
        }),
{
}

/// The walk over the range from the context `c`: a range out of the store is
/// an error before any entry is handed out.
pub open spec fn walk_range_spec<C, O: Operator<C>>(
    op: O,
    t: Seq<JbkEntryView>,
    range: EntryRange,
    c: C,
    depth: nat,
) -> (C, Result<(), WalkError<O::Error>>) {
    if !range_in_store(t, range.first as int, range.count as int) {
        (c, Err(WalkError::Base(range_error())))
    } else {
        walk_entries_spec(op, t, range.first as int, range.count as int, 0, c, depth)
    }
}

/// A whole walk over the range: the operator is started, the range walked,
/// the operator stopped; the first error stops it all.
pub open spec fn run_spec<C, O: Operator<C>>(
    op: O,
    t: Seq<JbkEntryView>,
    range: EntryRange,
    c: C,
    depth: nat,
) -> (C, Result<(), WalkError<O::Error>>) {
    let (c1, r1) = op.start_spec(c);
    match r1 {
        Err(x) => (c1, Err(WalkError::Operator(x))),
        Ok(_) => {
            let (c2, r2) = walk_range_spec(op, t, range, c1, depth);
            match r2 {
                Err(x) => (c2, Err(x)),
                Ok(_) => {
                    let (c3, r3) = op.stop_spec(c2);
                    match r3 {
                        Err(x) => (c3, Err(WalkError::Operator(x))),
                        Ok(_) => (c3, Ok(())),
                    }
                },
            }
        },
    }
}

/// Walks the tree of an archive, depth first, in index order, calling an
/// operator on each entry.
pub struct Walker<'a, Context> {
    pub arx: &'a Arx,
    pub context: Context,
}

impl<'a, Context> Walker<'a, Context> {
    pub fn new(arx: &'a Arx, context: Context) -> (r: Self)
        ensures
            r.arx == arx,
            r.context == context,
    {
        Walker { arx, context }
    }

    /// Walks from the root.
    pub fn run<O: Operator<Context>>(&mut self, op: &O) -> (r: Result<(), WalkError<O::Error>>)
        ensures
            (final(self).context, r) == run_spec(
                *op,
                old(self).arx.table(),
                old(self).arx.root,
                old(self).context,
                old(self).arx.entries@.len(),
            ),
            r matches Err(WalkError::Base(e)) ==> is_format_error(e),
            walkable(
                old(self).arx.table(),
                old(self).arx.root.first as int,
                old(self).arx.root.count as int,
                old(self).arx.entries@.len(),
            ) ==> !(r matches Err(WalkError::Base(_))),
            !(old(self).arx.root.first + old(self).arx.root.count <= old(self).arx.entries@.len()
                && old(self).arx.root.first + old(self).arx.root.count <= u32::MAX) ==> r is Err,
            final(self).arx == old(self).arx,
    {
        let root = self.arx.root;
        self.run_from_range(op, root)
    }

    /// Walks from the entries of `range`.
    pub fn run_from_range<O: Operator<Context>>(&mut self, op: &O, range: EntryRange) -> (r: Result<
        (),
        WalkError<O::Error>,
    >)
        ensures
            (final(self).context, r) == run_spec(
                *op,
                old(self).arx.table(),
                range,
                old(self).context,
                old(self).arx.entries@.len(),
            ),
            r matches Err(WalkError::Base(e)) ==> is_format_error(e),
            walkable(old(self).arx.table(), range.first as int, range.count as int, old(self).arx.entries@.len())
                ==> !(r matches Err(WalkError::Base(_))),
            !(range.first + range.count <= old(self).arx.entries@.len() && range.first + range.count <= u32::MAX)
                ==> r is Err,
            final(self).arx == old(self).arx,
    {
        match op.on_start(&mut self.context) {
            Ok(()) => {},
            Err(e) => {
                return Err(WalkError::Operator(e));
            },
        }
        let depth = self.arx.entries.len();
        match self.walk(range, op, depth) {
            Ok(()) => {},
            Err(e) => {
                return Err(e);
            },
        }
        match op.on_stop(&mut self.context) {
            Ok(()) => Ok(()),
            Err(e) => Err(WalkError::Operator(e)),
        }
    }

    /// Walks the entries of `range`, going at most `depth` directories down
    /// (a tree of `n` entries is never deeper than `n`: deeper means the
    /// directories of the store loop).
    fn walk<O: Operator<Context>>(&mut self, range: EntryRange, op: &O, depth: usize) -> (r: Result<
        (),
        WalkError<O::Error>,
    >)
        ensures
            (final(self).context, r) == walk_range_spec(*op, old(self).arx.table(), range, old(self).context, depth as nat),
            r matches Err(WalkError::Base(e)) ==> is_format_error(e),
            walkable(old(self).arx.table(), range.first as int, range.count as int, depth as nat)
                ==> !(r matches Err(WalkError::Base(_))),
            !(range.first + range.count <= old(self).arx.entries@.len() && range.first + range.count <= u32::MAX)
                ==> (r matches Err(WalkError::Base(e)) && e == range_error()),
            final(self).arx == old(self).arx,
        decreases depth,
    {
        let ghost t = self.arx.table();
        let entries = match self.arx.entries_in(range) {
            Ok(v) => v,
            Err(e) => {
                return Err(WalkError::Base(e));
            },
        };
        let mut k: usize = 0;
        while k < entries.len()
            invariant
                self.arx == old(self).arx,
                t == self.arx.table(),
                entries@.len() == range.count,
                range.first + range.count <= self.arx.entries@.len(),
                range.first + range.count <= u32::MAX,
                forall|j: int|
                    0 <= j < range.count ==> read_as(
                        #[trigger] entries@[j],
                        self.arx.table()[range.first + j],
                        (range.first + j) as u32,
                    ),
                walk_entries_spec(*op, t, range.first as int, range.count as int, 0, old(self).context, depth as nat)
                    == walk_entries_spec(*op, t, range.first as int, range.count as int, k as int, self.context, depth as nat),
            decreases entries@.len() - k,
        {
            let ghost i = range.first + k;
            let ghost c0 = self.context;
            proof {
                assert(read_as(entries@[k as int], t[i], i as u32));
            }
            match &entries[k] {
                Entry::File(f) => match op.on_file(&mut self.context, f) {
                    Ok(()) => {},
                    Err(e) => {
                        return Err(WalkError::Operator(e));
                    },
                },
                Entry::Link(l) => match op.on_link(&mut self.context, l) {
                    Ok(()) => {},
                    Err(e) => {
                        return Err(WalkError::Operator(e));
                    },
                },
                Entry::Dir(sub, d) => {
                    let enter = match op.on_directory_enter(&mut self.context, d) {
                        Ok(b) => b,
                        Err(e) => {
                            return Err(WalkError::Operator(e));
                        },
                    };
                    if enter {
                        proof {
                            if walkable(self.arx.table(), range.first as int, range.count as int, depth as nat) {
                                assert(range.first <= i < range.first + range.count);
                            }
                        }
                        if depth == 0 {
                            return Err(
                                WalkError::Base(
                                    QueryError::BaseError(
                                        BaseError::ArxFormatError(ArxFormatError("Directories of the entry store loop")),
                                    ),
                                ),
                            );
                        }
                        match self.walk(*sub, op, depth - 1) {
                            Ok(()) => {},
                            Err(e) => {
                                return Err(e);
                            },
                        }
                    }
                    match op.on_directory_exit(&mut self.context, d) {
                        Ok(()) => {},
                        Err(e) => {
                            return Err(WalkError::Operator(e));
                        },
                    }
                },
            }
            k = k + 1;
        }
        Ok(())
    }
}

} // verus!
