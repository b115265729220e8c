//! What the archive's file system answers: inode numbers, attributes,
//! directory listings and the bookkeeping of open files.
//!
//! The kernel names the root directory inode 1 and never uses 0. The root has
//! no entry of its own; the entry at index `n` of the store is inode `n + 2`.
use vstd::prelude::*;
use crate::arx::Arx;
use crate::bytes::{compare_bytes, copy_bytes, lemma_lex_lt_trans, lex_lt, Order};
use crate::cache::{
    attr_contents, attr_get, attr_push, new_attr_cache, new_resolve_cache, resolve_contents,
    resolve_get, resolve_put, AttrCache, ResolveCache,
};
use crate::error::{ArxFormatError, BaseError, EntryType};
use crate::flat::{view_jbk, JbkEntry, JbkEntryView, JbkKind, JbkKindView};
use crate::table::{
    find_in, find_in_range, in_bounds, lemma_find_in, lemma_find_in_sorted, range_sorted, table_lookup,
    EntryRange, TableLookup,
};
use crate::tree::ContentAddress;
use crate::ui::{decimal, push_decimal};
use std::collections::HashMap;

verus! {

/// The inode of the root directory.
pub const ROOT_INO: u64 = 1;

/// The size of a block, as reported to the kernel.
pub const BLOCK_SIZE: u32 = 512;

/// The unit in which file contents are said to be allocated.
pub const ALLOC_UNIT: u64 = 4096;

/// The permission bits that are kept from the stored rights: no write bit,
/// and the others as stored.
pub const PERM_MASK: u16 = 0xff6d;

/// An inode number as the kernel sees it; never 0.
#[derive(Clone, Copy, PartialEq, Eq, Structural, Debug, Hash)]
pub struct Ino(u64);

impl View for Ino {
    type V = u64;

    closed spec fn view(&self) -> u64 {
        self.0
    }
}

impl Ino {
    #[verifier::type_invariant]
    spec fn non_zero(self) -> bool {
        self.0 != 0
    }

    /// The inode numbered `v`, which must not be 0.
    pub fn new(v: u64) -> (r: Ino)
        requires
            v != 0,
        ensures
            r@ == v,
    {
        Ino(v)
    }

    /// The inode of the entry at index `idx` of the store.
    pub fn from_idx(idx: u32) -> (r: Ino)
        ensures
            r@ == idx + 2,
    {
        Ino(idx as u64 + 2)
    }

    /// The inode's number.
    pub fn get(&self) -> (r: u64)
        ensures
            r == self@,
            r != 0,
    {
        proof {
            use_type_invariant(self);
        }
        self.0
    }

    /// The index of the entry this inode stands for, or `None` for the root.
    pub fn to_idx(&self) -> (r: Option<u32>)
        ensures
            r == ino_to_idx(self@),
    {
        proof {
            use_type_invariant(self);
        }
        if self.0 == ROOT_INO {
            None
        } else {
            Some((self.0 - 2) as u32)
        }
    }

    /// This is the root's inode.
    pub fn is_root(&self) -> (r: bool)
        ensures
            r == (self@ == ROOT_INO),
    {
        self.0 == ROOT_INO
    }
}

/// The entry index that inode `v` stands for: none for the root, else the
/// number less 2, cut to 32 bits.
pub open spec fn ino_to_idx(v: u64) -> Option<u32> {
    if v == ROOT_INO {
        None
    } else {
        Some((v - 2) as u32)
    }
}

/// Going from an entry index to its inode and back gives the index again.
pub proof fn lemma_ino_roundtrip(idx: u32)
    ensures
        ino_to_idx((idx + 2) as u64) == Some(idx),
{
}

/// Going from an inode of an entry to its index and back gives the inode
/// again, for every inode whose index fits in 32 bits.
pub proof fn lemma_idx_roundtrip(v: u64)
    requires
        2 <= v <= u32::MAX + 2,
    ensures
        ino_to_idx(v) matches Some(i) && i + 2 == v,
{
}

/// `value / rhs`, rounded up.
pub open spec fn ceil_div(value: int, rhs: int) -> int {
    (value + rhs - 1) / rhs
}

/// `value / rhs`, rounded up.
pub fn div_ceil(value: u64, rhs: u64) -> (r: u64)
    requires
        rhs > 0,
    ensures
        r == ceil_div(value as int, rhs as int),
{
    let q = value / rhs;
    let m = value % rhs;
    proof {
        let (v, d) = (value as int, rhs as int);
        assert(v == q * d + m && 0 <= m < d) by (nonlinear_arith)
            requires
                q == v / d,
                m == v % d,
                d > 0,
        ;
        assert(ceil_div(v, d) == q + if m == 0 { 0int } else { 1int }) by (nonlinear_arith)
            requires
                v == q * d + m,
                0 <= m < d,
                q >= 0,
        {
            if m == 0 {
                assert((q * d + d - 1) / d == q);
            } else {
                assert((q * d + m + d - 1) / d == q + 1);
            }
        }
        if m != 0 {
            assert(q < u64::MAX) by (nonlinear_arith)
                requires
                    v == q * d + m,
                    0 < m < d,
                    v <= u64::MAX,
                    q >= 0,
            ;
        }
    }
    if m != 0 {
        q + 1
    } else {
        q
    }
}

/// The attributes of an inode that the file system reports; the times but
/// the modification time are the epoch.
#[derive(Clone, Copy, PartialEq, Eq, Structural, Debug)]
pub struct FileAttr {
    pub ino: u64,
    pub size: u64,
    pub kind: EntryType,
    pub blocks: u64,
    /// Seconds since the epoch.
    pub mtime: u64,
    pub perm: u16,
    pub nlink: u32,
    pub uid: u32,
    pub gid: u32,
    pub blksize: u32,
}

/// The kind of a stored entry.
pub open spec fn kind_of(e: JbkEntryView) -> EntryType {
    match e.kind {
        JbkKindView::Dir { .. } => EntryType::Dir,
        JbkKindView::File { .. } => EntryType::File,
        JbkKindView::Link { .. } => EntryType::Link,
    }
}

/// The size reported for a stored entry: a file's size, ten bytes for each
/// child of a directory and one more, the length of a link's target.
pub open spec fn attr_size(e: JbkEntryView) -> int {
    match e.kind {
        JbkKindView::Dir { nb_children, .. } => (nb_children + 1) * 10,
        JbkKindView::File { size, .. } => size as int,
        JbkKindView::Link { target } => target.len() as int,
    }
}

/// The attributes can be computed without overflow: what is not a directory
/// is at most one allocation unit short of the largest size.
pub open spec fn attr_fits(e: JbkEntryView) -> bool {
    kind_of(e) != EntryType::Dir ==> attr_size(e) <= u64::MAX - 4095
}

/// The space said to be allocated for a stored entry: none for a directory,
/// else its size rounded up to the allocation unit.
pub open spec fn allocated(e: JbkEntryView) -> int {
    if kind_of(e) == EntryType::Dir {
        0
    } else {
        ceil_div(attr_size(e), ALLOC_UNIT as int) * ALLOC_UNIT
    }
}

/// The attributes reported for the entry `e` at index `idx`.
pub open spec fn attr_spec(e: JbkEntryView, idx: u32) -> FileAttr {
    FileAttr {
        ino: (idx + 2) as u64,
        size: attr_size(e) as u64,
        kind: kind_of(e),
        blocks: ceil_div(allocated(e), BLOCK_SIZE as int) as u64,
        mtime: e.mtime,
        perm: ((e.rights as u16) & PERM_MASK) as u16,
        nlink: 1,
        uid: e.owner as u32,
        gid: e.group as u32,
        blksize: BLOCK_SIZE,
    }
}

/// The attributes of the root directory.
pub open spec fn root_attr_spec() -> FileAttr {
    FileAttr {
        ino: ROOT_INO,
        size: 0,
        kind: EntryType::Dir,
        blocks: 1,
        mtime: 0,
        perm: 0o555,
        nlink: 2,
        uid: 1000,
        gid: 1000,
        blksize: 0,
    }
}

/// The attributes of the root directory.
pub fn root_attr() -> (r: FileAttr)
    ensures
        r == root_attr_spec(),
{
    FileAttr {
        ino: ROOT_INO,
        size: 0,
        kind: EntryType::Dir,
        blocks: 1,
        mtime: 0,
        perm: 0o555,
        nlink: 2,
        uid: 1000,
        gid: 1000,
        blksize: 0,
    }
}

/// The kind of a stored entry.
pub fn entry_kind(e: &JbkEntry) -> (r: EntryType)
    ensures
        r == kind_of(e@),
{
    match &e.kind {
        JbkKind::Dir { .. } => EntryType::Dir,
        JbkKind::File { .. } => EntryType::File,
        JbkKind::Link { .. } => EntryType::Link,
    }
}

/// The attributes of the entry `e` stored at index `idx`.
pub fn attr_of(e: &JbkEntry, idx: u32) -> (r: FileAttr)
    requires
        attr_fits(e@),
    ensures
        r == attr_spec(e@, idx),
{
    let kind = entry_kind(e);
    let size: u64 = match &e.kind {
        JbkKind::File { size, .. } => *size,
        JbkKind::Dir { nb_children, .. } => (*nb_children as u64 + 1) * 10,
        JbkKind::Link { target } => target.len() as u64,
    };
    let allocated_size: u64 = match kind {
        EntryType::Dir => 0,
        _ => {
            let units = div_ceil(size, ALLOC_UNIT);
            proof {
                assert(units * 4096 <= u64::MAX) by (nonlinear_arith)
                    requires
                        units == (size + 4095) / 4096,
                        size <= u64::MAX - 4095,
                ;
            }
            units * ALLOC_UNIT
        },
    };
    let rights = (e.rights as u16) & PERM_MASK;
    FileAttr {
        ino: idx as u64 + 2,
        size,
        kind,
        blocks: div_ceil(allocated_size, BLOCK_SIZE as u64),
        mtime: e.mtime,
        perm: rights,
        nlink: 1,
        uid: e.owner as u32,
        gid: e.group as u32,
        blksize: BLOCK_SIZE,
    }
}

/// How many bytes a read of `size` bytes at `offset` gets from a content of
/// `region_size` bytes: what is asked, cut at the end of the content.
pub fn read_len(region_size: u64, offset: i64, size: u32) -> (r: u64)
    requires
        0 <= offset <= region_size,
    ensures
        r == if size as int <= region_size - offset { size as int } else { region_size - offset },
        offset + r <= region_size,
{
    let offset = offset as u64;
    let left = region_size - offset;
    if (size as u64) < left {
        size as u64
    } else {
        left
    }
}

/// The open files: for each inode, the region that holds its content and how
/// many times it is open.
pub open spec fn opened_spec<R>(m: Map<u64, (R, u64)>, ino: u64, region: R) -> Map<u64, (R, u64)> {
    if m.contains_key(ino) {
        m.insert(ino, (m[ino].0, (m[ino].1 + 1) as u64))
    } else {
        m.insert(ino, (region, 1))
    }
}

/// The open files after one release of `ino`: one opening less, and the
/// region dropped with the last one.
pub open spec fn released_spec<R>(m: Map<u64, (R, u64)>, ino: u64) -> Map<u64, (R, u64)> {
    if !m.contains_key(ino) {
        m
    } else if m[ino].1 <= 1 {
        m.remove(ino)
    } else {
        m.insert(ino, (m[ino].0, (m[ino].1 - 1) as u64))
    }
}

/// Every open inode is open at least once.
pub open spec fn counts_positive<R>(m: Map<u64, (R, u64)>) -> bool {
    forall|k: u64| #[trigger] m.contains_key(k) ==> m[k].1 >= 1
}

/// The regions of the open files, shared by the openings of one inode.
pub struct OpenFiles<R> {
    regions: HashMap<u64, (R, u64)>,
}

impl<R> View for OpenFiles<R> {
    type V = Map<u64, (R, u64)>;

    closed spec fn view(&self) -> Map<u64, (R, u64)> {
        self.regions@
    }
}

impl<R> OpenFiles<R> {
    /// The bookkeeping holds: every open inode is open at least once.
    pub open spec fn wf(&self) -> bool {
        counts_positive(self@)
    }

    /// No file is open.
    pub fn new() -> (r: Self)
        ensures
            r@ == Map::<u64, (R, u64)>::empty(),
            r.wf(),
    {
        OpenFiles { regions: HashMap::new() }
    }

    /// How many times `ino` is open.
    pub fn open_count(&self, ino: &Ino) -> (r: u64)
        ensures
            r == if self@.contains_key(ino@) { self@[ino@].1 } else { 0 },
    {
        broadcast use vstd::std_specs::hash::group_hash_axioms;
        match self.regions.get(&ino.get()) {
            Some(entry) => entry.1,
            None => 0,
        }
    }

    /// The region of an open inode.
    pub fn region(&self, ino: &Ino) -> (r: Option<&R>)
        ensures
            match r {
                Some(region) => self@.contains_key(ino@) && *region == self@[ino@].0,
                None => !self@.contains_key(ino@),
            },
    {
        broadcast use vstd::std_specs::hash::group_hash_axioms;
        match self.regions.get(&ino.get()) {
            Some(entry) => Some(&entry.0),
            None => None,
        }
    }

    /// Opens `ino` once more if it is open already, and says whether it was.
    pub fn reopen(&mut self, ino: &Ino) -> (r: bool)
        requires
            old(self).wf(),
            old(self)@.contains_key(ino@) ==> old(self)@[ino@].1 < u64::MAX,
        ensures
            final(self).wf(),
            r == old(self)@.contains_key(ino@),
            r ==> final(self)@ == opened_spec(old(self)@, ino@, old(self)@[ino@].0),
            !r ==> final(self)@ == old(self)@,
    {
        broadcast use vstd::std_specs::hash::group_hash_axioms;
        let key = ino.get();
        match self.regions.remove(&key) {
            Some(entry) => {
                let (region, count) = entry;
                self.regions.insert(key, (region, count + 1));
                proof {
                    assert(self@ =~= opened_spec(old(self)@, ino@, old(self)@[ino@].0));
                }
                true
            },
            None => {
                proof {
                    assert(self@ =~= old(self)@);
                }
                false
            },
        }
    }

    /// Records the first opening of `ino`, whose content is `region`.
    pub fn insert(&mut self, ino: &Ino, region: R)
        requires
            old(self).wf(),
            !old(self)@.contains_key(ino@),
        ensures
            final(self).wf(),
            final(self)@ == opened_spec(old(self)@, ino@, region),
    {
        broadcast use vstd::std_specs::hash::group_hash_axioms;
        self.regions.insert(ino.get(), (region, 1));
    }

    /// Closes `ino` once, and says whether it was open.
    pub fn release(&mut self, ino: &Ino) -> (r: bool)
        requires
            old(self).wf(),
        ensures
            final(self).wf(),
            r == old(self)@.contains_key(ino@),
            final(self)@ == released_spec(old(self)@, ino@),
    {
        broadcast use vstd::std_specs::hash::group_hash_axioms;
        let key = ino.get();
        match self.regions.remove(&key) {
            Some(entry) => {
                let (region, count) = entry;
                if count > 1 {
                    self.regions.insert(key, (region, count - 1));
                }
                proof {
                    assert(self@ =~= released_spec(old(self)@, ino@));
                }
                true
            },
            None => {
                proof {
                    assert(self@ =~= old(self)@);
                }
                false
            },
        }
    }
}

/// Opening a file and then releasing it leaves the open files as they were,
/// whether it was open already or not.
pub proof fn lemma_open_then_release<R>(m: Map<u64, (R, u64)>, ino: u64, region: R)
    requires
        counts_positive(m),
        m.contains_key(ino) ==> m[ino].1 < u64::MAX,
    ensures
        released_spec(opened_spec(m, ino, region), ino) == m,
{
    if m.contains_key(ino) {
        assert(released_spec(opened_spec(m, ino, region), ino) =~= m);
    } else {
        assert(released_spec(opened_spec(m, ino, region), ino) =~= m);
    }
}

/// Opening keeps every open inode open at least once.
pub proof fn lemma_open_keeps_counts<R>(m: Map<u64, (R, u64)>, ino: u64, region: R)
    requires
        counts_positive(m),
        m.contains_key(ino) ==> m[ino].1 < u64::MAX,
    ensures
        counts_positive(opened_spec(m, ino, region)),
        opened_spec(m, ino, region).contains_key(ino),
{
}

// ---------------------------------------------------------------------------
// Checking that the entry store can be served.
// ---------------------------------------------------------------------------

/// A directory's range of children is within the store and sorted by name.
pub open spec fn dir_ok(t: Seq<JbkEntryView>, e: JbkEntryView) -> bool {
    match e.kind {
        JbkKindView::Dir { first_child, nb_children } => in_bounds(t, first_child as int, nb_children as int)
            && range_sorted(t, first_child as int, nb_children as int),
        _ => true,
    }
}

/// The entry store can be served: every range of children is within the
/// store and sorted by name, and every attribute can be computed.
pub open spec fn fs_wf(t: Seq<JbkEntryView>, root: EntryRange) -> bool {
    &&& in_bounds(t, root.first as int, root.count as int)
    &&& range_sorted(t, root.first as int, root.count as int)
    &&& forall|i: int| 0 <= i < t.len() ==> attr_fits(#[trigger] t[i]) && dir_ok(t, t[i])
}

/// Whether the range `[first, first + count)` is within the store and
/// sorted by name.
fn range_ok(t: &Vec<JbkEntry>, first: u32, count: u32) -> (r: bool)
    ensures
        r == (in_bounds(view_jbk(t@), first as int, count as int) && range_sorted(
            view_jbk(t@),
            first as int,
            count as int,
        )),
{
    let ghost tv = view_jbk(t@);
    if first as u64 + count as u64 > t.len() as u64 || first as u64 + count as u64 > 0xffff_ffffu64 {
        return false;
    }
    if count == 0 {
        return true;
    }
    let end: u32 = first + count;
    let mut i: u32 = first + 1;
    while i < end
        invariant
            tv == view_jbk(t@),
            in_bounds(tv, first as int, count as int),
            first + 1 <= i <= end,
            end == first + count,
            range_sorted(tv, first as int, (i - first) as int),
        decreases end - i,
    {
        let o = compare_bytes(t[(i - 1) as usize].name.as_slice(), t[i as usize].name.as_slice());
        proof {
            assert(tv[i - 1] == t@[i - 1]@);
            assert(tv[i as int] == t@[i as int]@);
        }
        if o != Order::Less {
            proof {
                let (a, b) = ((i - 1) as int, i as int);
                assert(!lex_lt(tv[a].name, tv[b].name));
            }
            return false;
        }
        proof {
            assert forall|a: int, b: int| first <= a < b < i + 1 implies lex_lt(
                #[trigger] tv[a].name,
                #[trigger] tv[b].name,
            ) by {
                if b == i as int && a < i - 1 {
                    lemma_lex_lt_trans(tv[a].name, tv[i - 1].name, tv[b].name);
                }
            }
        }
        i = i + 1;
    }
    true
}

/// Whether the attributes of `e` can be computed.
fn fits(e: &JbkEntry) -> (r: bool)
    ensures
        r == attr_fits(e@),
{
    match &e.kind {
        JbkKind::Dir { .. } => true,
        JbkKind::File { size, .. } => *size <= u64::MAX - 4095,
        JbkKind::Link { target } => (target.len() as u64) <= u64::MAX - 4095,
    }
}

/// Whether the entry store can be served from `root`.
pub fn table_ok(t: &Vec<JbkEntry>, root: EntryRange) -> (r: bool)
    ensures
        r == fs_wf(view_jbk(t@), root),
{
    let ghost tv = view_jbk(t@);
    if !range_ok(t, root.first, root.count) {
        return false;
    }
    let mut i: usize = 0;
    while i < t.len()
        invariant
            tv == view_jbk(t@),
            i <= t@.len(),
            forall|j: int| 0 <= j < i ==> attr_fits(#[trigger] tv[j]) && dir_ok(tv, tv[j]),
        decreases t@.len() - i,
    {
        let e = &t[i];
        proof {
            assert(tv[i as int] == e@);
        }
        if !fits(e) {
            return false;
        }
        match &e.kind {
            JbkKind::Dir { first_child, nb_children } => {
                if !range_ok(t, *first_child, *nb_children) {
                    return false;
                }
            },
            _ => {},
        }
        i = i + 1;
    }
    true
}

// ---------------------------------------------------------------------------
// What the file system answers.
// ---------------------------------------------------------------------------

/// The range of children of the directory at inode `ino`: the root's range
/// for the root, else that of the entry, if it is a directory.
pub open spec fn dir_range(t: Seq<JbkEntryView>, root: EntryRange, ino: u64) -> Option<(int, int)> {
    match ino_to_idx(ino) {
        None => Some((root.first as int, root.count as int)),
        Some(i) => if i < t.len() {
            match t[i as int].kind {
                JbkKindView::Dir { first_child, nb_children } => Some(
                    (first_child as int, nb_children as int),
                ),
                _ => None,
            }
        } else {
            None
        },
    }
}

/// The index of the entry named `name` in the directory at inode `ino`.
pub open spec fn resolve_spec(t: Seq<JbkEntryView>, root: EntryRange, ino: u64, name: Seq<u8>) -> Option<u32> {
    match dir_range(t, root, ino) {
        Some((first, count)) => {
            let k = find_in(t, first, count, name);
            if k < 0 {
                None
            } else {
                Some(k as u32)
            }
        },
        None => None,
    }
}

/// In a store that can be served, a directory's range is within the store
/// and sorted, and a name resolves to an entry of the store with that name.
pub proof fn lemma_resolve_in_store(t: Seq<JbkEntryView>, root: EntryRange, ino: u64, name: Seq<u8>)
    requires
        fs_wf(t, root),
    ensures
        dir_range(t, root, ino) matches Some((f, c)) ==> in_bounds(t, f, c) && range_sorted(t, f, c),
        resolve_spec(t, root, ino, name) matches Some(i) ==> i < t.len() && t[i as int].name == name,
{
    if let Some(i) = ino_to_idx(ino) {
        if i < t.len() {
            assert(dir_ok(t, t[i as int]));
        }
    }
    if let Some((f, c)) = dir_range(t, root, ino) {
        crate::table::lemma_find_in(t, f, c, name);
    }
}

/// The attributes of inode `ino`.
pub open spec fn getattr_spec(t: Seq<JbkEntryView>, ino: u64) -> FileAttr {
    match ino_to_idx(ino) {
        None => root_attr_spec(),
        Some(i) => attr_spec(t[i as int], i),
    }
}

/// The inode `ino` stands for the root or for an entry of the store.
pub open spec fn ino_in_store(t: Seq<JbkEntryView>, ino: u64) -> bool {
    ino_to_idx(ino) matches Some(i) ==> i < t.len()
}

/// What the file system answers when the kernel looks up an inode or reads
/// a link or a directory and it cannot.
#[derive(Clone, Copy, PartialEq, Eq, Structural, Debug)]
pub enum Errno {
    /// The inode is not a link.
    NoLink,
    /// The inode is a directory.
    IsDir,
    /// No such entry.
    NotFound,
    /// The inode is not a directory.
    NotDir,
    /// The content could not be read.
    Io,
    /// The pack that holds the content is missing.
    NoMedium,
}

/// What opening a file needs next.
#[derive(Clone, Copy, PartialEq, Eq, Structural, Debug)]
pub enum OpenStep {
    /// The file was open already; it is now open once more.
    Opened,
    /// The file's content is at this address; fetch it and hand it to
    /// `ArxFs::opened`.
    Fetch(ContentAddress),
    /// The inode cannot be opened.
    Failed(Errno),
}

/// What fetching a file's content gave.
pub enum Fetched<R> {
    /// The container could not read it.
    Error,
    /// The pack that holds it is missing.
    Missing,
    /// The content.
    Found(R),
}

/// One entry of a directory listing, at its offset.
pub struct DirSlot {
    pub ino: u64,
    pub offset: i64,
    pub kind: EntryType,
    pub name: Vec<u8>,
}

/// The model of a slot of a directory listing.
pub struct DirSlotView {
    pub ino: u64,
    pub offset: i64,
    pub kind: EntryType,
    pub name: Seq<u8>,
}

impl View for DirSlot {
    type V = DirSlotView;

    open spec fn view(&self) -> DirSlotView {
        DirSlotView { ino: self.ino, offset: self.offset, kind: self.kind, name: self.name@ }
    }
}

/// The inode of the parent of the directory at inode `ino`: the root is its
/// own parent, and an entry at the root has the root as parent.
pub open spec fn parent_ino(t: Seq<JbkEntryView>, ino: u64) -> u64 {
    match ino_to_idx(ino) {
        None => ino,
        Some(i) => match t[i as int].parent {
            None => ROOT_INO,
            Some(p) => (p + 2) as u64,
        },
    }
}

/// The slot at offset `i` of the listing of the directory at inode `ino`,
/// whose children start at `first`: `.`, then `..`, then the children in
/// order.
pub open spec fn slot_spec(t: Seq<JbkEntryView>, ino: u64, first: int, i: int) -> DirSlotView {
    if i == 0 {
        DirSlotView { ino, offset: 0, kind: EntryType::Dir, name: seq![46u8] }
    } else if i == 1 {
        DirSlotView { ino: parent_ino(t, ino), offset: 1, kind: EntryType::Dir, name: seq![46u8, 46u8] }
    } else {
        let j = first + i - 2;
        DirSlotView { ino: (j + 2) as u64, offset: i as i64, kind: kind_of(t[j]), name: t[j].name }
    }
}

/// The offset of the first slot listed after `offset`: 0 lists from the
/// start, any other offset is the last slot seen already.
pub open spec fn first_slot(offset: int) -> int {
    if offset == 0 {
        0
    } else {
        offset + 1
    }
}

/// The listing of the directory at inode `ino` from `offset` on.
pub open spec fn readdir_spec(t: Seq<JbkEntryView>, root: EntryRange, ino: u64, offset: int) -> Seq<DirSlotView> {
    match dir_range(t, root, ino) {
        Some((first, count)) => {
            let start = first_slot(offset);
            let end = count + 2;
            let len = if start < end { end - start } else { 0 };
            Seq::new(len as nat, |k: int| slot_spec(t, ino, first, start + k))
        },
        None => Seq::empty(),
    }
}

/// Listing a directory from an offset already seen gives the rest of the
/// listing from the start: the slots after that offset.
pub proof fn lemma_readdir_resume(t: Seq<JbkEntryView>, root: EntryRange, ino: u64, offset: int)
    requires
        0 < offset,
        dir_range(t, root, ino) matches Some((f, c)) && offset < c + 2,
    ensures
        readdir_spec(t, root, ino, offset) == readdir_spec(t, root, ino, 0).subrange(
            offset + 1,
            readdir_spec(t, root, ino, 0).len() as int,
        ),
{
    let whole = readdir_spec(t, root, ino, 0);
    assert(readdir_spec(t, root, ino, offset) =~= whole.subrange(offset + 1, whole.len() as int));
}

/// The entry reached by looking up the names of `path` one after the other,
/// from the directory at inode `ino`.
pub open spec fn resolve_path(t: Seq<JbkEntryView>, root: EntryRange, ino: u64, path: Seq<Seq<u8>>) -> Option<u32>
    decreases path.len(),
{
    if path.len() == 0 {
        None
    } else {
        match resolve_spec(t, root, ino, path[0]) {
            None => None,
            Some(i) => if path.len() == 1 {
                Some(i)
            } else {
                resolve_path(t, root, (i + 2) as u64, path.drop_first())
            },
        }
    }
}

/// The file system and the archive's reader agree: looking up a path name by
/// name from a directory of a store that can be served reaches the entry
/// the reader finds at that path in the directory's range, and nothing
/// where the reader finds nothing.
pub proof fn law_fs_lookup_matches_reader(t: Seq<JbkEntryView>, root: EntryRange, ino: u64, path: Seq<Seq<u8>>)
    requires
        fs_wf(t, root),
        dir_range(t, root, ino) is Some,
    ensures
        ({
            let (f, c) = dir_range(t, root, ino).unwrap();
            resolve_path(t, root, ino, path) == match table_lookup(t, f, c, path) {
                TableLookup::Found(i) => Some(i as u32),
                _ => None::<u32>,
            }
        }),
    decreases path.len(),
{
    let (f, c) = dir_range(t, root, ino).unwrap();
    lemma_resolve_in_store(t, root, ino, seq![]);
    if path.len() > 0 {
        lemma_find_in(t, f, c, path[0]);
        let k = find_in(t, f, c, path[0]);
        if k >= 0 && path.len() > 1 {
            let next = (k + 2) as u64;
            assert(ino_to_idx(next) == Some(k as u32));
            assert(dir_ok(t, t[k]));
            if dir_range(t, root, next) is Some {
                law_fs_lookup_matches_reader(t, root, next, path.drop_first());
            }
        }
    }
}

/// A call that a file system serves.
#[derive(Clone, Copy, PartialEq, Eq, Structural, Debug)]
pub enum StatCall {
    Lookup,
    Getattr,
    Readlink,
    Open,
    Read,
    Release,
    Opendir,
    Readdir,
    Releasedir,
}

/// What a file system counts of the calls it serves. An implementation says
/// in `counted` what counting a call makes of it.
pub trait Stats: Sized {
    /// What counting `call` makes of these statistics.
    spec fn counted(&self, call: StatCall) -> Self;

    fn lookup(&mut self)
        ensures
            *final(self) == old(self).counted(StatCall::Lookup),
    ;

    fn getattr(&mut self)
        ensures
            *final(self) == old(self).counted(StatCall::Getattr),
    ;

    fn readlink(&mut self)
        ensures
            *final(self) == old(self).counted(StatCall::Readlink),
    ;

    fn open(&mut self)
        ensures
            *final(self) == old(self).counted(StatCall::Open),
    ;

    fn read(&mut self)
        ensures
            *final(self) == old(self).counted(StatCall::Read),
    ;

    fn release(&mut self)
        ensures
            *final(self) == old(self).counted(StatCall::Release),
    ;

    fn opendir(&mut self)
        ensures
            *final(self) == old(self).counted(StatCall::Opendir),
    ;

    fn readdir(&mut self)
        ensures
            *final(self) == old(self).counted(StatCall::Readdir),
    ;

    fn releasedir(&mut self)
        ensures
            *final(self) == old(self).counted(StatCall::Releasedir),
    ;
}

/// Counting nothing.
impl Stats for () {
    open spec fn counted(&self, call: StatCall) -> () {
        ()
    }

    fn lookup(&mut self) {
    }

    fn getattr(&mut self) {
    }

    fn readlink(&mut self) {
    }

    fn open(&mut self) {
    }

    fn read(&mut self) {
    }

    fn release(&mut self) {
    }

    fn opendir(&mut self) {
    }

    fn readdir(&mut self) {
    }

    fn releasedir(&mut self) {
    }
}

/// The file system of an archive: its entries, the caches of resolved names
/// and of attributes, the open files, and what is counted of the calls.
pub struct ArxFs<R, S> {
    arx: Arx,
    root: EntryRange,
    resolve_cache: ResolveCache,
    attr_cache: AttrCache,
    open_files: OpenFiles<R>,
    stats: S,
}

/// How many resolved names are kept.
pub const RESOLVE_CACHE_SIZE: usize = 4096;

/// How many entries' attributes are kept.
pub const ATTR_CACHE_SIZE: usize = 100;

impl<R> ArxFs<R, ()> {
    /// The file system of `arx`, from its root.
    pub fn new(arx: Arx) -> (r: Result<Self, BaseError>)
        ensures
            match r {
                Ok(fs) => fs.wf() && fs.table() == arx.table() && fs.root() == arx.root
                    && fs.open_view() == Map::<u64, (R, u64)>::empty(),
                Err(e) => !fs_wf(arx.table(), arx.root) && e is ArxFormatError,
            },
    {
        let root = arx.root;
        Self::new_from_root(arx, root)
    }

    /// The file system of `arx`, with `root_range` as its root.
    pub fn new_from_root(arx: Arx, root_range: EntryRange) -> (r: Result<Self, BaseError>)
        ensures
            match r {
                Ok(fs) => fs.wf() && fs.table() == arx.table() && fs.root() == root_range
                    && fs.open_view() == Map::<u64, (R, u64)>::empty(),
                Err(e) => !fs_wf(arx.table(), root_range) && e is ArxFormatError,
            },
    {
        Self::new_with_stats(arx, root_range, ())
    }
}

impl<R, S: Stats> ArxFs<R, S> {
    /// The model of the entries served.
    pub closed spec fn table(&self) -> Seq<JbkEntryView> {
        self.arx.table()
    }

    /// The root's range of children.
    pub closed spec fn root(&self) -> EntryRange {
        self.root
    }

    /// What is counted of the calls.
    pub closed spec fn stats_view(&self) -> S {
        self.stats
    }

    /// The open files.
    pub closed spec fn open_view(&self) -> Map<u64, (R, u64)> {
        self.open_files@
    }

    /// The file system can serve its entries, and what its caches hold is
    /// what it would compute.
    pub closed spec fn wf(&self) -> bool {
        &&& fs_wf(self.table(), self.root)
        &&& self.open_files.wf()
        &&& forall|k: (u64, Seq<u8>)| #[trigger]
            resolve_contents(self.resolve_cache).contains_key(k) ==> resolve_contents(
                self.resolve_cache,
            )[k] == resolve_spec(self.table(), self.root, k.0, k.1)
        &&& forall|i: u32| #[trigger]
            attr_contents(self.attr_cache).contains_key(i) ==> i < self.table().len()
                && attr_contents(self.attr_cache)[i] == attr_spec(self.table()[i as int], i)
    }

    /// The file system of `arx` from `root_range`, counting its calls in
    /// `stats`; refused when the entry store cannot be served.
    pub fn new_with_stats(arx: Arx, root_range: EntryRange, stats: S) -> (r: Result<Self, BaseError>)
        ensures
            match r {
                Ok(fs) => fs.wf() && fs.table() == arx.table() && fs.root() == root_range
                    && fs.open_view() == Map::<u64, (R, u64)>::empty(),
                Err(e) => !fs_wf(arx.table(), root_range) && e is ArxFormatError,
            },
    {
        if !table_ok(&arx.entries, root_range) {
            return Err(BaseError::ArxFormatError(ArxFormatError("Entry ranges of the archive cannot be served")));
        }
        let resolve_cache = new_resolve_cache(RESOLVE_CACHE_SIZE);
        let attr_cache = new_attr_cache(ATTR_CACHE_SIZE);
        Ok(ArxFs { arx, root: root_range, resolve_cache, attr_cache, open_files: OpenFiles::new(), stats })
    }

    /// What is counted of the calls.
    pub fn stats(&self) -> (r: &S)
        ensures
            *r == self.stats_view(),
    {
        &self.stats
    }

    /// Whether `ino` stands for the root or for an entry of the store.
    pub fn in_store(&self, ino: &Ino) -> (r: bool)
        ensures
            r == ino_in_store(self.table(), ino@),
    {
        match ino.to_idx() {
            None => true,
            Some(idx) => (idx as usize) < self.arx.entries.len(),
        }
    }

    /// Whether `ino` is a directory of the store (or the root).
    pub fn is_dir(&self, ino: &Ino) -> (r: bool)
        requires
            ino_in_store(self.table(), ino@),
        ensures
            r == dir_range(self.table(), self.root(), ino@) is Some,
    {
        self.dir_range_of(ino).is_some()
    }

    /// How many times `ino` is open.
    pub fn open_count(&self, ino: &Ino) -> (r: u64)
        ensures
            r == if self.open_view().contains_key(ino@) { self.open_view()[ino@].1 } else { 0 },
    {
        self.open_files.open_count(ino)
    }

    /// The range of children of the directory at `ino`.
    fn dir_range_of(&self, ino: &Ino) -> (r: Option<EntryRange>)
        requires
            ino_in_store(self.table(), ino@),
        ensures
            match r {
                Some(range) => dir_range(self.table(), self.root, ino@) == Some(
                    (range.first as int, range.count as int),
                ),
                None => dir_range(self.table(), self.root, ino@) is None,
            },
    {
        match ino.to_idx() {
            None => Some(self.root),
            Some(idx) => {
                let e = &self.arx.entries[idx as usize];
                proof {
                    assert(self.table()[idx as int] == e@);
                }
                match &e.kind {
                    JbkKind::Dir { first_child, nb_children } => Some(
                        EntryRange { first: *first_child, count: *nb_children },
                    ),
                    _ => None,
                }
            },
        }
    }

    /// The attributes of the entry at `idx`, from the cache if they are there.
    fn cached_attr(&mut self, idx: u32) -> (r: FileAttr)
        requires
            old(self).wf(),
            idx < old(self).table().len(),
        ensures
            final(self).wf(),
            final(self).table() == old(self).table(),
            final(self).root() == old(self).root(),
            final(self).open_view() == old(self).open_view(),
            final(self).stats_view() == old(self).stats_view(),
            r == attr_spec(old(self).table()[idx as int], idx),
    {
        match attr_get(&mut self.attr_cache, idx) {
            Some(attr) => attr,
            None => {
                let e = &self.arx.entries[idx as usize];
                proof {
                    assert(self.table()[idx as int] == e@);
                }
                let attr = attr_of(e, idx);
                attr_push(&mut self.attr_cache, idx, attr);
                attr
            },
        }
    }

    /// The attributes of `ino`.
    pub fn getattr(&mut self, ino: &Ino) -> (r: FileAttr)
        requires
            old(self).wf(),
            ino_in_store(old(self).table(), ino@),
        ensures
            final(self).stats_view() == old(self).stats_view().counted(StatCall::Getattr),
            final(self).wf(),
            final(self).table() == old(self).table(),
            final(self).root() == old(self).root(),
            final(self).open_view() == old(self).open_view(),
            r == getattr_spec(old(self).table(), ino@),
    {
        self.stats.getattr();
        match ino.to_idx() {
            None => root_attr(),
            Some(idx) => self.cached_attr(idx),
        }
    }

    /// The target of the link at `ino`.
    pub fn readlink(&mut self, ino: &Ino) -> (r: Result<Vec<u8>, Errno>)
        requires
            old(self).wf(),
            ino_in_store(old(self).table(), ino@),
        ensures
            final(self).stats_view() == old(self).stats_view().counted(StatCall::Readlink),
            final(self).wf(),
            final(self).table() == old(self).table(),
            final(self).root() == old(self).root(),
            final(self).open_view() == old(self).open_view(),
            match ino_to_idx(ino@) {
                Some(i) => match old(self).table()[i as int].kind {
                    JbkKindView::Link { target } => r matches Ok(v) && v@ == target,
                    _ => r == Err::<Vec<u8>, Errno>(Errno::NoLink),
                },
                None => r == Err::<Vec<u8>, Errno>(Errno::NoLink),
            },
    {
        self.stats.readlink();
        match ino.to_idx() {
            None => Err(Errno::NoLink),
            Some(idx) => {
                let e = &self.arx.entries[idx as usize];
                proof {
                    assert(self.table()[idx as int] == e@);
                }
                match &e.kind {
                    JbkKind::Link { target } => Ok(copy_bytes(target.as_slice())),
                    _ => Err(Errno::NoLink),
                }
            },
        }
    }

    /// Opens `ino`: once more if it is open already, else says where its
    /// content is, or why it cannot be opened.
    pub fn open(&mut self, ino: &Ino) -> (r: OpenStep)
        requires
            old(self).wf(),
            ino_in_store(old(self).table(), ino@),
            old(self).open_view().contains_key(ino@) ==> old(self).open_view()[ino@].1 < u64::MAX,
        ensures
            final(self).stats_view() == old(self).stats_view().counted(StatCall::Open),
            final(self).wf(),
            final(self).table() == old(self).table(),
            final(self).root() == old(self).root(),
            old(self).open_view().contains_key(ino@) ==> r == OpenStep::Opened && final(self).open_view()
                == opened_spec(old(self).open_view(), ino@, old(self).open_view()[ino@].0),
            !old(self).open_view().contains_key(ino@) ==> final(self).open_view() == old(self).open_view()
                && r == match ino_to_idx(ino@) {
                None => OpenStep::Failed(Errno::IsDir),
                Some(i) => match old(self).table()[i as int].kind {
                    JbkKindView::File { content, .. } => OpenStep::Fetch(content),
                    JbkKindView::Dir { .. } => OpenStep::Failed(Errno::IsDir),
                    JbkKindView::Link { .. } => OpenStep::Failed(Errno::NotFound),
                },
            },
    {
        self.stats.open();
        if self.open_files.reopen(ino) {
            return OpenStep::Opened;
        }
        match ino.to_idx() {
            None => OpenStep::Failed(Errno::IsDir),
            Some(idx) => {
                let e = &self.arx.entries[idx as usize];
                proof {
                    assert(self.table()[idx as int] == e@);
                }
                match &e.kind {
                    JbkKind::File { content, .. } => OpenStep::Fetch(*content),
                    JbkKind::Dir { .. } => OpenStep::Failed(Errno::IsDir),
                    JbkKind::Link { .. } => OpenStep::Failed(Errno::NotFound),
                }
            },
        }
    }

    /// Ends the opening of `ino` with what fetching its content gave: the
    /// file is open once with that content, or the error says why not.
    pub fn opened(&mut self, ino: &Ino, fetched: Fetched<R>) -> (r: Result<(), Errno>)
        requires
            old(self).wf(),
            !old(self).open_view().contains_key(ino@),
        ensures
            final(self).wf(),
            final(self).table() == old(self).table(),
            final(self).root() == old(self).root(),
            match fetched {
                Fetched::Error => r == Err::<(), Errno>(Errno::Io) && final(self).open_view() == old(self).open_view(),
                Fetched::Missing => r == Err::<(), Errno>(Errno::NoMedium) && final(self).open_view() == old(self).open_view(),
                Fetched::Found(region) => r is Ok && final(self).open_view() == opened_spec(
                    old(self).open_view(),
                    ino@,
                    region,
                ),
            },
    {
        match fetched {
            Fetched::Error => Err(Errno::Io),
            Fetched::Missing => Err(Errno::NoMedium),
            Fetched::Found(region) => {
                self.open_files.insert(ino, region);
                Ok(())
            },
        }
    }

    /// The content of the open file `ino`, for a read.
    pub fn read(&mut self, ino: &Ino) -> (r: Option<&R>)
        requires
            old(self).wf(),
        ensures
            final(self).stats_view() == old(self).stats_view().counted(StatCall::Read),
            final(self).wf(),
            final(self).table() == old(self).table(),
            final(self).root() == old(self).root(),
            final(self).open_view() == old(self).open_view(),
            match r {
                Some(region) => old(self).open_view().contains_key(ino@) && *region == old(
                    self,
                ).open_view()[ino@].0,
                None => !old(self).open_view().contains_key(ino@),
            },
    {
        self.stats.read();
        self.open_files.region(ino)
    }

    /// Closes `ino` once; it is an error if it is not open.
    pub fn release(&mut self, ino: &Ino) -> (r: Result<(), Errno>)
        requires
            old(self).wf(),
        ensures
            final(self).stats_view() == old(self).stats_view().counted(StatCall::Release),
            final(self).wf(),
            final(self).table() == old(self).table(),
            final(self).root() == old(self).root(),
            final(self).open_view() == released_spec(old(self).open_view(), ino@),
            r == if old(self).open_view().contains_key(ino@) {
                Ok::<(), Errno>(())
            } else {
                Err(Errno::NotFound)
            },
    {
        self.stats.release();
        if self.open_files.release(ino) {
            Ok(())
        } else {
            Err(Errno::NotFound)
        }
    }

    /// Opens the directory `ino`; it is an error if it is not a directory.
    pub fn opendir(&mut self, ino: &Ino) -> (r: Result<(), Errno>)
        requires
            old(self).wf(),
            ino_in_store(old(self).table(), ino@),
        ensures
            final(self).stats_view() == old(self).stats_view().counted(StatCall::Opendir),
            final(self).wf(),
            final(self).table() == old(self).table(),
            final(self).root() == old(self).root(),
            final(self).open_view() == old(self).open_view(),
            r == if dir_range(old(self).table(), old(self).root(), ino@) is Some {
                Ok::<(), Errno>(())
            } else {
                Err(Errno::NotDir)
            },
    {
        self.stats.opendir();
        match self.dir_range_of(ino) {
            Some(_) => Ok(()),
            None => Err(Errno::NotDir),
        }
    }

    /// Closes a directory: the call is counted, and nothing else changes.
    pub fn releasedir(&mut self)
        requires
            old(self).wf(),
        ensures
            final(self).wf(),
            final(self).table() == old(self).table(),
            final(self).root() == old(self).root(),
            final(self).open_view() == old(self).open_view(),
            final(self).stats_view() == old(self).stats_view().counted(StatCall::Releasedir),
    {
        self.stats.releasedir();
    }

    /// Lists the directory `ino` from `offset` on: `.`, `..`, then the
    /// children, each at its offset. The names listed are kept in the cache
    /// of resolved names.
    pub fn readdir(&mut self, ino: &Ino, offset: i64) -> (r: Vec<DirSlot>)
        requires
            old(self).wf(),
            dir_range(old(self).table(), old(self).root(), ino@) is Some,
            0 <= offset < i64::MAX,
        ensures
            final(self).stats_view() == old(self).stats_view().counted(StatCall::Readdir),
            final(self).wf(),
            final(self).table() == old(self).table(),
            final(self).root() == old(self).root(),
            final(self).open_view() == old(self).open_view(),
            r@.map_values(|s: DirSlot| s@) == readdir_spec(old(self).table(), old(self).root(), ino@, offset as int),
    {
        self.stats.readdir();
        let ghost t = self.table();
        proof {
            lemma_resolve_in_store(t, self.root, ino@, seq![]);
        }
        let range = self.dir_range_of(ino).unwrap();
        let ghost first = range.first as int;
        let nb_entry: i64 = range.count as i64 + 2;
        let start: i64 = if offset == 0 { 0 } else { offset + 1 };
        let parent: u64 = match ino.to_idx() {
            None => ino.get(),
            Some(idx) => {
                proof {
                    assert(t[idx as int] == self.arx.entries@[idx as int]@);
                }
                match self.arx.entries[idx as usize].parent {
                    None => ROOT_INO,
                    Some(p) => p as u64 + 2,
                }
            },
        };
        let mut slots: Vec<DirSlot> = Vec::new();
        if start >= nb_entry {
            proof {
                assert(slots@.map_values(|s: DirSlot| s@) =~= readdir_spec(t, self.root, ino@, offset as int));
            }
            return slots;
        }
        let mut i: i64 = start;
        while i < nb_entry
            invariant
                self.wf(),
                self.table() == t,
                self.root() == old(self).root(),
                self.open_view() == old(self).open_view(),
                self.stats_view() == old(self).stats_view().counted(StatCall::Readdir),
                dir_range(t, self.root, ino@) == Some((range.first as int, range.count as int)),
                in_bounds(t, first, range.count as int),
                range_sorted(t, first, range.count as int),
                first == range.first,
                nb_entry == range.count + 2,
                start == first_slot(offset as int),
                0 <= start <= i <= nb_entry,
                parent == parent_ino(t, ino@),
                slots@.len() == i - start,
                forall|k: int| 0 <= k < slots@.len() ==> #[trigger] slots@[k]@ == slot_spec(t, ino@, first, start + k),
            decreases nb_entry - i,
        {
            if i == 0 {
                let dot: Vec<u8> = vec![46u8];
                assert(dot@ =~= seq![46u8]);
                slots.push(DirSlot { ino: ino.get(), offset: 0, kind: EntryType::Dir, name: dot });
                assert(slots@[slots@.len() - 1]@ == slot_spec(t, ino@, first, i as int));
            } else if i == 1 {
                let dotdot: Vec<u8> = vec![46u8, 46u8];
                assert(dotdot@ =~= seq![46u8, 46u8]);
                slots.push(DirSlot { ino: parent, offset: 1, kind: EntryType::Dir, name: dotdot });
                assert(slots@[slots@.len() - 1]@ == slot_spec(t, ino@, first, i as int));
            } else {
                let idx: u32 = range.first + (i - 2) as u32;
                let e = &self.arx.entries[idx as usize];
                proof {
                    assert(t[idx as int] == e@);
                }
                let name = copy_bytes(e.name.as_slice());
                let key_name = copy_bytes(e.name.as_slice());
                let kind = entry_kind(e);
                slots.push(DirSlot { ino: idx as u64 + 2, offset: i, kind, name });
                assert(slots@[slots@.len() - 1]@ == slot_spec(t, ino@, first, i as int));
                proof {
                    lemma_find_in_sorted(t, first, range.count as int, t[idx as int].name, idx as int);
                }
                let ghost before = self.resolve_cache;
                resolve_put(&mut self.resolve_cache, ino.get(), key_name, Some(idx));
                proof {
                    assert forall|k: (u64, Seq<u8>)| #[trigger]
                        resolve_contents(self.resolve_cache).contains_key(k) implies resolve_contents(
                        self.resolve_cache,
                    )[k] == resolve_spec(t, self.root, k.0, k.1) by {
                        if k != (ino@, t[idx as int].name) {
                            assert(resolve_contents(before).contains_key(k));
                        }
                    }
                }
            }
            i = i + 1;
        }
        proof {
            assert(slots@.map_values(|s: DirSlot| s@) =~= readdir_spec(t, self.root, ino@, offset as int));
        }
        slots
    }

    /// Looks up `name` in the directory at `parent`: the attributes of the
    /// entry it names, or none.
    pub fn lookup(&mut self, parent: &Ino, name: &[u8]) -> (r: Option<FileAttr>)
        requires
            old(self).wf(),
            dir_range(old(self).table(), old(self).root(), parent@) is Some,
        ensures
            final(self).stats_view() == old(self).stats_view().counted(StatCall::Lookup),
            final(self).wf(),
            final(self).table() == old(self).table(),
            final(self).root() == old(self).root(),
            final(self).open_view() == old(self).open_view(),
            r == match resolve_spec(old(self).table(), old(self).root(), parent@, name@) {
                Some(i) => Some(attr_spec(old(self).table()[i as int], i)),
                None => None,
            },
    {
        self.stats.lookup();
        let ghost t = self.table();
        proof {
            lemma_resolve_in_store(t, self.root, parent@, name@);
        }
        let idx = match resolve_get(&mut self.resolve_cache, parent.get(), name) {
            Some(idx) => idx,
            None => {
                let range = self.dir_range_of(parent).unwrap();
                let idx = find_in_range(&self.arx.entries, range.first, range.count, name);
                let key_name = copy_bytes(name);
                resolve_put(&mut self.resolve_cache, parent.get(), key_name, idx);
                proof {
                    assert forall|k: (u64, Seq<u8>)| #[trigger]
                        resolve_contents(self.resolve_cache).contains_key(k) implies resolve_contents(
                        self.resolve_cache,
                    )[k] == resolve_spec(t, self.root, k.0, k.1) by {
                        if k != (parent@, name@) {
                            assert(resolve_contents(old(self).resolve_cache).contains_key(k));
                        }
                    }
                }
                idx
            },
        };
        match idx {
            None => None,
            Some(idx) => Some(self.cached_attr(idx)),
        }
    }
}

/// A counter after one more count; it wraps to 0 past the largest value.
pub open spec fn next_count(c: u64) -> u64 {
    if c == u64::MAX {
        0
    } else {
        (c + 1) as u64
    }
}

/// `c` counted once more.
fn bump(c: u64) -> (r: u64)
    ensures
        r == next_count(c),
{
    c.wrapping_add(1)
}

/// Counts each kind of call a file system serves.
pub struct StatCounter {
    pub nb_lookup: u64,
    pub nb_getattr: u64,
    pub nb_readlink: u64,
    pub nb_open: u64,
    pub nb_read: u64,
    pub nb_release: u64,
    pub nb_opendir: u64,
    pub nb_readdir: u64,
    pub nb_releasedir: u64,
}

impl StatCounter {
    /// No call counted yet.
    pub fn new() -> (r: Self)
        ensures
            r.nb_lookup == 0 && r.nb_getattr == 0 && r.nb_readlink == 0 && r.nb_open == 0
                && r.nb_read == 0 && r.nb_release == 0 && r.nb_opendir == 0 && r.nb_readdir == 0
                && r.nb_releasedir == 0,
    {
        StatCounter {
            nb_lookup: 0,
            nb_getattr: 0,
            nb_readlink: 0,
            nb_open: 0,
            nb_read: 0,
            nb_release: 0,
            nb_opendir: 0,
            nb_readdir: 0,
            nb_releasedir: 0,
        }
    }
}

impl Default for StatCounter {
    fn default() -> (r: Self)
        ensures
            r.nb_lookup == 0 && r.nb_getattr == 0 && r.nb_readlink == 0 && r.nb_open == 0
                && r.nb_read == 0 && r.nb_release == 0 && r.nb_opendir == 0 && r.nb_readdir == 0
                && r.nb_releasedir == 0,
    {
        Self::new()
    }
}

/// The line of a counter: its name, a colon and its value.
pub open spec fn stat_line(name: Seq<char>, n: u64) -> Seq<char> {
    name + ": "@ + decimal(n as nat) + "\n"@
}

/// The counters as text, one line each.
pub open spec fn stats_text(s: StatCounter) -> Seq<char> {
    stat_line("nb_lookup"@, s.nb_lookup) + stat_line("nb_getattr"@, s.nb_getattr) + stat_line(
        "nb_readlink"@,
        s.nb_readlink,
    ) + stat_line("nb_open"@, s.nb_open) + stat_line("nb_read"@, s.nb_read) + stat_line(
        "nb_release"@,
        s.nb_release,
    ) + stat_line("nb_opendir"@, s.nb_opendir) + stat_line("nb_readdir"@, s.nb_readdir) + stat_line(
        "nb_releasedir"@,
        s.nb_releasedir,
    )
}

/// Appends the line of a counter to `out`.
fn push_stat_line(out: &mut String, name: &str, n: u64)
    ensures
        final(out)@ == old(out)@ + stat_line(name@, n),
{
    out.append(name);
    out.append(": ");
    push_decimal(out, n as u128);
    out.append("\n");
    proof {
        assert(final(out)@ =~= old(out)@ + stat_line(name@, n));
    }
}

impl StatCounter {
    /// The counters as text, one line each.
    pub fn text(&self) -> (r: String)
        ensures
            r@ == stats_text(*self),
    {
        let mut r = String::new();
        push_stat_line(&mut r, "nb_lookup", self.nb_lookup);
        push_stat_line(&mut r, "nb_getattr", self.nb_getattr);
        push_stat_line(&mut r, "nb_readlink", self.nb_readlink);
        push_stat_line(&mut r, "nb_open", self.nb_open);
        push_stat_line(&mut r, "nb_read", self.nb_read);
        push_stat_line(&mut r, "nb_release", self.nb_release);
        push_stat_line(&mut r, "nb_opendir", self.nb_opendir);
        push_stat_line(&mut r, "nb_readdir", self.nb_readdir);
        push_stat_line(&mut r, "nb_releasedir", self.nb_releasedir);
        proof {
            assert(r@ =~= stats_text(*self));
        }
        r
    }
}

impl Stats for StatCounter {
    open spec fn counted(&self, call: StatCall) -> StatCounter {
        match call {
            StatCall::Lookup => StatCounter { nb_lookup: next_count(self.nb_lookup), ..*self },
            StatCall::Getattr => StatCounter { nb_getattr: next_count(self.nb_getattr), ..*self },
            StatCall::Readlink => StatCounter { nb_readlink: next_count(self.nb_readlink), ..*self },
            StatCall::Open => StatCounter { nb_open: next_count(self.nb_open), ..*self },
            StatCall::Read => StatCounter { nb_read: next_count(self.nb_read), ..*self },
            StatCall::Release => StatCounter { nb_release: next_count(self.nb_release), ..*self },
            StatCall::Opendir => StatCounter { nb_opendir: next_count(self.nb_opendir), ..*self },
            StatCall::Readdir => StatCounter { nb_readdir: next_count(self.nb_readdir), ..*self },
            StatCall::Releasedir => StatCounter { nb_releasedir: next_count(self.nb_releasedir), ..*self },
        }
    }

    fn lookup(&mut self)
        ensures
            *final(self) == (StatCounter { nb_lookup: next_count(old(self).nb_lookup), ..*old(self) }),
    {
        self.nb_lookup = bump(self.nb_lookup);
    }

    fn getattr(&mut self)
        ensures
            *final(self) == (StatCounter { nb_getattr: next_count(old(self).nb_getattr), ..*old(self) }),
    {
        self.nb_getattr = bump(self.nb_getattr);
    }

    fn readlink(&mut self)
        ensures
            *final(self) == (StatCounter { nb_readlink: next_count(old(self).nb_readlink), ..*old(self) }),
    {
        self.nb_readlink = bump(self.nb_readlink);
    }

    fn open(&mut self)
        ensures
            *final(self) == (StatCounter { nb_open: next_count(old(self).nb_open), ..*old(self) }),
    {
        self.nb_open = bump(self.nb_open);
    }

    fn read(&mut self)
        ensures
            *final(self) == (StatCounter { nb_read: next_count(old(self).nb_read), ..*old(self) }),
    {
        self.nb_read = bump(self.nb_read);
    }

    fn release(&mut self)
        ensures
            *final(self) == (StatCounter { nb_release: next_count(old(self).nb_release), ..*old(self) }),
    {
        self.nb_release = bump(self.nb_release);
    }

    fn opendir(&mut self)
        ensures
            *final(self) == (StatCounter { nb_opendir: next_count(old(self).nb_opendir), ..*old(self) }),
    {
        self.nb_opendir = bump(self.nb_opendir);
    }

    fn readdir(&mut self)
        ensures
            *final(self) == (StatCounter { nb_readdir: next_count(old(self).nb_readdir), ..*old(self) }),
    {
        self.nb_readdir = bump(self.nb_readdir);
    }

    fn releasedir(&mut self)
        ensures
            *final(self) == (StatCounter {
                nb_releasedir: next_count(old(self).nb_releasedir),
                ..*old(self)
            }),
    {
        self.nb_releasedir = bump(self.nb_releasedir);
    }
}

} // verus!
