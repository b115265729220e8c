//! Creating the entry store of an archive: entries are added one by one, by
//! path, into a tree; the tree is then laid out flat.
use vstd::prelude::*;
use crate::error::{CreatorError, EntryType, IncoherentStructure, InputError, InputErrorKind};
use crate::flat::{flat, flat_spec, view_jbk, JbkEntry, JbkKind};
use crate::paths::{path_components, path_file_name, path_parent, rel_components, rel_file_name, rel_parent};
use crate::tree::{
    add_spec, names_view, tree_size, tree_wf, view_opt, Conflict, ContentAddress, DirEntry, Entry,
    EntryView, NodeView,
};

verus! {

/// How entries are laid out in files.
#[derive(Clone, Copy, PartialEq, Eq, Structural, Debug)]
pub enum ConcatMode {
    /// One file holds everything.
    OneFile,
    /// The contents in one file, the rest in another.
    TwoFiles,
    /// One file per pack.
    NoConcat,
}

/// What an entry to add is.
pub enum EntryKind {
    Dir,
    File(u64, ContentAddress),
    Link(Vec<u8>),
}

/// An entry to add to an archive. What it reports is given by its spec
/// functions.
pub trait EntryTrait {
    /// The kind the entry reports.
    spec fn spec_kind(&self) -> Result<Option<EntryKind>, CreatorError>;

    /// The path the entry reports.
    spec fn spec_path(&self) -> Seq<char>;

    spec fn spec_uid(&self) -> u64;

    spec fn spec_gid(&self) -> u64;

    spec fn spec_mode(&self) -> u64;

    spec fn spec_mtime(&self) -> u64;

    /// The kind of the entry; `None` for an entry that is not stored.
    fn kind(&self) -> (r: Result<Option<EntryKind>, CreatorError>)
        ensures
            same_kind(r, self.spec_kind()),
    ;

    /// Under which path the entry will be stored.
    fn path(&self) -> (r: &str)
        ensures
            r@ == self.spec_path(),
    ;

    fn uid(&self) -> (r: u64)
        ensures
            r == self.spec_uid(),
    ;

    fn gid(&self) -> (r: u64)
        ensures
            r == self.spec_gid(),
    ;

    fn mode(&self) -> (r: u64)
        ensures
            r == self.spec_mode(),
    ;

    fn mtime(&self) -> (r: u64)
        ensures
            r == self.spec_mtime(),
    ;
}

/// What an entry of this kind stores, apart from its children.
pub open spec fn entry_kind_view(kind: EntryKind) -> NodeView {
    match kind {
        EntryKind::Dir => NodeView::Dir(Seq::empty()),
        EntryKind::File(size, content) => NodeView::File { content, size },
        EntryKind::Link(target) => NodeView::Link { target: target@ },
    }
}

/// Two reported kinds say the same: the same error, or kinds that store the
/// same.
pub open spec fn same_kind(a: Result<Option<EntryKind>, CreatorError>, b: Result<Option<EntryKind>, CreatorError>) -> bool {
    match (a, b) {
        (Ok(None), Ok(None)) => true,
        (Ok(Some(x)), Ok(Some(y))) => entry_kind_view(x) == entry_kind_view(y),
        (Err(e), Err(f)) => e == f,
        _ => false,
    }
}

/// The properties stored for each entry.
#[derive(Clone, Copy, PartialEq, Eq, Structural, Debug)]
pub enum Property {
    Name,
    Parent,
    Owner,
    Group,
    Rights,
    Mtime,
    Content,
    Size,
    FirstChild,
    NbChildren,
    Target,
}

/// A value of a property, as it is stored.
pub enum Value {
    Content(ContentAddress),
    Unsigned(u64),
    Array(Vec<u8>),
}

/// The stored value of a parent: 0 for the root, the index plus one otherwise.
pub open spec fn encode_parent(p: Option<u32>) -> u64 {
    match p {
        Some(i) => (i + 1) as u64,
        None => 0,
    }
}

/// The parent a stored value names.
pub open spec fn decode_parent_spec(v: u64) -> Option<u32> {
    if v == 0 {
        None
    } else if v as u32 == 0 {
        Some(u32::MAX)
    } else {
        Some((v as u32 - 1) as u32)
    }
}

/// Reads a stored parent value back.
pub fn decode_parent(v: u64) -> (r: Option<u32>)
    ensures
        r == decode_parent_spec(v),
{
    if v == 0 {
        None
    } else {
        Some((v as u32).wrapping_sub(1))
    }
}

/// A stored parent value reads back as the parent it was made from.
pub proof fn lemma_parent_roundtrip(p: Option<u32>)
    ensures
        decode_parent_spec(encode_parent(p)) == p,
{
    if let Some(i) = p {
        let v: u64 = (i + 1) as u64;
        if i == u32::MAX {
            assert((v as u32) == 0u32) by (bit_vector)
                requires
                    v == 0x1_0000_0000u64,
            ;
        } else {
            assert((v as u32) == v) by (bit_vector)
                requires
                    v < 0x1_0000_0000u64,
            ;
        }
    }
}

/// `name` is stored for an entry of this kind.
pub open spec fn property_applies(kind: JbkKind, name: Property) -> bool {
    match name {
        Property::Content | Property::Size => kind is File,
        Property::Target => kind is Link,
        Property::FirstChild | Property::NbChildren => kind is Dir,
        _ => true,
    }
}

impl JbkEntry {
    /// The variant the entry is stored as.
    pub fn variant_name(&self) -> (r: EntryType)
        ensures
            self.kind is File ==> r == EntryType::File,
            self.kind is Link ==> r == EntryType::Link,
            self.kind is Dir ==> r == EntryType::Dir,
    {
        match self.kind {
            JbkKind::File { .. } => EntryType::File,
            JbkKind::Link { .. } => EntryType::Link,
            JbkKind::Dir { .. } => EntryType::Dir,
        }
    }

    /// The value stored for the property `name`.
    pub fn value(&self, name: Property) -> (r: Value)
        requires
            property_applies(self.kind, name),
        ensures
            name == Property::Name ==> (r matches Value::Array(a) && a@ == self.name@),
            name == Property::Parent ==> r == Value::Unsigned(encode_parent(self.parent)),
            name == Property::Owner ==> r == Value::Unsigned(self.owner),
            name == Property::Group ==> r == Value::Unsigned(self.group),
            name == Property::Rights ==> r == Value::Unsigned(self.rights),
            name == Property::Mtime ==> r == Value::Unsigned(self.mtime),
            name == Property::Content ==> (self.kind matches JbkKind::File { content, .. } && r
                == Value::Content(content)),
            name == Property::Size ==> (self.kind matches JbkKind::File { size, .. } && r
                == Value::Unsigned(size)),
            name == Property::Target ==> (self.kind matches JbkKind::Link { target } && (r matches Value::Array(
                a,
            ) && a@ == target@)),
            name == Property::FirstChild ==> (self.kind matches JbkKind::Dir { first_child, .. } && r
                == Value::Unsigned(first_child as u64)),
            name == Property::NbChildren ==> (self.kind matches JbkKind::Dir { nb_children, .. } && r
                == Value::Unsigned(nb_children as u64)),
    {
        match name {
            Property::Name => Value::Array(crate::bytes::copy_bytes(self.name.as_slice())),
            Property::Parent => Value::Unsigned(
                match self.parent {
                    Some(p) => p as u64 + 1,
                    None => 0,
                },
            ),
            Property::Owner => Value::Unsigned(self.owner),
            Property::Group => Value::Unsigned(self.group),
            Property::Rights => Value::Unsigned(self.rights),
            Property::Mtime => Value::Unsigned(self.mtime),
            Property::Content => match &self.kind {
                JbkKind::File { content, .. } => Value::Content(*content),
                _ => Value::Unsigned(0),
            },
            Property::Size => match &self.kind {
                JbkKind::File { size, .. } => Value::Unsigned(*size),
                _ => Value::Unsigned(0),
            },
            Property::Target => match &self.kind {
                JbkKind::Link { target } => Value::Array(crate::bytes::copy_bytes(target.as_slice())),
                _ => Value::Unsigned(0),
            },
            Property::FirstChild => match &self.kind {
                JbkKind::Dir { first_child, .. } => Value::Unsigned(*first_child as u64),
                _ => Value::Unsigned(0),
            },
            Property::NbChildren => match &self.kind {
                JbkKind::Dir { nb_children, .. } => Value::Unsigned(*nb_children as u64),
                _ => Value::Unsigned(0),
            },
        }
    }

    /// How many properties are stored for the entry: the six common ones, and
    /// two for a file or a directory, one for a link.
    pub fn value_count(&self) -> (r: u8)
        ensures
            r == (if self.kind is Link {
                7u8
            } else {
                8u8
            }),
    {
        match self.kind {
            JbkKind::Dir { .. } => 6 + 2,
            JbkKind::File { .. } => 6 + 2,
            JbkKind::Link { .. } => 6 + 1,
        }
    }
}

/// The parent directories of the entry stored under `path`.
pub open spec fn parents_of(path: Seq<char>) -> Seq<Seq<u8>> {
    match rel_parent(path) {
        None => Seq::empty(),
        Some(p) => rel_components(p),
    }
}

/// The model of the entry to add.
pub open spec fn new_entry_view(
    name: Seq<u8>,
    kind: EntryKind,
    uid: u64,
    gid: u64,
    mode: u64,
    mtime: u64,
) -> EntryView {
    EntryView {
        name,
        owner: uid,
        group: gid,
        rights: mode,
        mtime,
        node: entry_kind_view(kind),
    }
}

/// The tree after adding an entry of this kind at `path`, and the outcome: an
/// entry that is not stored still makes its parent directories; an entry whose
/// path has no file name makes them and is refused.
pub open spec fn add_entry_spec(
    tree: Seq<EntryView>,
    path: Seq<char>,
    kind: Option<EntryKind>,
    uid: u64,
    gid: u64,
    mode: u64,
    mtime: u64,
) -> (Seq<EntryView>, Result<(), AddFailure>) {
    let parents = parents_of(path);
    match kind {
        None => {
            let r = add_spec(tree, parents, None);
            (r.0, lift(r.1))
        },
        Some(k) => match rel_file_name(path) {
            None => {
                let r = add_spec(tree, parents, None);
                (
                    r.0,
                    match r.1 {
                        Ok(()) => Err(AddFailure::NoFileName),
                        Err(c) => Err(AddFailure::Conflict(c)),
                    },
                )
            },
            Some(name) => {
                let r = add_spec(tree, parents, Some(new_entry_view(name, k, uid, gid, mode, mtime)));
                (r.0, lift(r.1))
            },
        },
    }
}

/// Why adding an entry failed, in the model.
pub enum AddFailure {
    Conflict(Conflict),
    NoFileName,
}

pub open spec fn lift(r: Result<(), Conflict>) -> Result<(), AddFailure> {
    match r {
        Ok(()) => Ok(()),
        Err(c) => Err(AddFailure::Conflict(c)),
    }
}

/// The error of the model's failure, for the entry at `path`.
pub open spec fn failure_matches(e: CreatorError, f: AddFailure, path: Seq<char>) -> bool {
    match f {
        AddFailure::Conflict(c) => e matches CreatorError::IncoherentStructure(i) && i.conflict == c
            && i.path@ == path,
        AddFailure::NoFileName => e matches CreatorError::InputError(i) && i.kind
            == InputErrorKind::NoFileName && i.path@ == path,
    }
}

/// The entry store of an archive, as it is being built.
pub struct EntryStoreCreator {
    root_entry: DirEntry,
}

/// The entry store once built: its entries in index order, how many there
/// are, and how many are at the root (the root's children come first).
pub struct FinalStore {
    pub entries: Vec<JbkEntry>,
    pub entry_count: u32,
    pub root_count: u32,
}

impl EntryStoreCreator {
    /// The tree of the entries added so far.
    pub closed spec fn tree(&self) -> Seq<EntryView> {
        self.root_entry@
    }

    /// Every directory keeps its children sorted by name.
    pub closed spec fn wf(&self) -> bool {
        tree_wf(self.root_entry@)
    }

    /// A creator with no entry.
    pub fn new() -> (r: Self)
        ensures
            r.wf(),
            r.tree() == Seq::<EntryView>::empty(),
    {
        let r = EntryStoreCreator { root_entry: DirEntry::new() };
        proof {
            assert(tree_wf(Seq::<EntryView>::empty()));
        }
        r
    }

    /// Adds an entry of kind `kind` (not stored if `None`) at `path`, with
    /// these attributes. The directories on the way that are not there yet are
    /// made (owner and group 1000, rights 0o755, mtime 0).
    pub fn add_entry_data(
        &mut self,
        path: &str,
        kind: Option<EntryKind>,
        uid: u64,
        gid: u64,
        mode: u64,
        mtime: u64,
    ) -> (r: Result<(), CreatorError>)
        requires
            old(self).wf(),
        ensures
            final(self).wf(),
            ({
                let s = add_entry_spec(old(self).tree(), path@, kind, uid, gid, mode, mtime);
                &&& final(self).tree() == s.0
                &&& match (r, s.1) {
                    (Ok(()), Ok(())) => true,
                    (Err(e), Err(f)) => failure_matches(e, f, path@),
                    _ => false,
                }
            }),
    {
        let parents: Vec<Vec<u8>> = match path_parent(path) {
            None => Vec::new(),
            Some(p) => path_components(p.as_str()),
        };
        proof {
            assert(names_view(parents@) =~= parents_of(path@));
            assert(names_view(parents@).skip(0) =~= names_view(parents@));
        }
        let ghost kind_v = kind;
        let (entry, no_name) = match kind {
            None => (None, false),
            Some(k) => match path_file_name(path) {
                None => (None, true),
                Some(name) => {
                    let e = match k {
                        EntryKind::Dir => Entry::new_dir(name, uid, gid, mode, mtime),
                        EntryKind::File(size, content) => Entry::new_file(name, uid, gid, mode, mtime, content, size),
                        EntryKind::Link(target) => Entry::new_link(name, uid, gid, mode, mtime, target),
                    };
                    (Some(e), false)
                },
            },
        };
        proof {
            match kind_v {
                Some(k) => match rel_file_name(path@) {
                    Some(name) => {
                        assert(view_opt(entry) == Some(new_entry_view(name, k, uid, gid, mode, mtime)));
                    },
                    None => {},
                },
                None => {},
            }
        }
        let r = self.root_entry.add_at(parents.as_slice(), 0, entry);
        match r {
            Ok(()) => {
                if no_name {
                    Err(CreatorError::InputError(InputError { path: path.to_owned(), kind: InputErrorKind::NoFileName }))
                } else {
                    Ok(())
                }
            },
            Err(c) => Err(CreatorError::IncoherentStructure(IncoherentStructure { path: path.to_owned(), conflict: c })),
        }
    }

    /// Adds `entry` at its path. The directories on the way that are not there
    /// yet are made (owner and group 1000, rights 0o755, mtime 0). What is
    /// added is what the entry reports; where it cannot tell its kind, only
    /// the directories on the way are made and its error is returned.
    pub fn add_entry<E: EntryTrait>(&mut self, entry: &E) -> (r: Result<(), CreatorError>)
        requires
            old(self).wf(),
        ensures
            final(self).wf(),
            match entry.spec_kind() {
                Ok(k) => {
                    let s = add_entry_spec(
                        old(self).tree(),
                        entry.spec_path(),
                        k,
                        entry.spec_uid(),
                        entry.spec_gid(),
                        entry.spec_mode(),
                        entry.spec_mtime(),
                    );
                    &&& final(self).tree() == s.0
                    &&& match (r, s.1) {
                        (Ok(()), Ok(())) => true,
                        (Err(e), Err(f)) => failure_matches(e, f, entry.spec_path()),
                        _ => false,
                    }
                },
                Err(kind_error) => {
                    let s = add_entry_spec(
                        old(self).tree(),
                        entry.spec_path(),
                        None,
                        entry.spec_uid(),
                        entry.spec_gid(),
                        entry.spec_mode(),
                        entry.spec_mtime(),
                    );
                    &&& final(self).tree() == s.0
                    &&& match s.1 {
                        Ok(()) => r == Err::<(), CreatorError>(kind_error),
                        Err(f) => r matches Err(e) && failure_matches(e, f, entry.spec_path()),
                    }
                },
            },
    {
        let kind = entry.kind();
        let uid = entry.uid();
        let gid = entry.gid();
        let mode = entry.mode();
        let mtime = entry.mtime();
        let path = entry.path();
        match kind {
            Ok(k) => {
                let ghost kv = k;
                let r = self.add_entry_data(path, k, uid, gid, mode, mtime);
                proof {
                    if let Ok(k2) = entry.spec_kind() {
                        match (kv, k2) {
                            (Some(x), Some(y)) => {
                                assert(add_entry_spec(old(self).tree(), path@, kv, uid, gid, mode, mtime) == add_entry_spec(
                                    old(self).tree(),
                                    path@,
                                    k2,
                                    uid,
                                    gid,
                                    mode,
                                    mtime,
                                ));
                            },
                            _ => {},
                        }
                    }
                }
                r
            },
            Err(e) => {
                let r = self.add_entry_data(path, None, uid, gid, mode, mtime);
                match r {
                    Ok(()) => Err(e),
                    Err(c) => Err(c),
                }
            },
        }
    }

    /// The entry store, laid out flat; `None` where it holds more entries than
    /// a `u32` counts.
    pub fn finalize(self) -> (r: Option<FinalStore>)
        requires
            self.wf(),
        ensures
            match r {
                Some(s) => {
                    &&& tree_size(self.tree()) <= u32::MAX
                    &&& view_jbk(s.entries@) == flat_spec(self.tree(), 0, None)
                    &&& s.entry_count == tree_size(self.tree())
                    &&& s.root_count == self.tree().len()
                },
                None => tree_size(self.tree()) > u32::MAX,
            },
    {
        match self.root_entry.checked_nb_entry() {
            None => None,
            Some(entry_count) => {
                proof {
                    crate::flat::lemma_inner_total(self.root_entry@);
                }
                let root_count = self.root_entry.nb_children();
                let entries = flat(&self.root_entry);
                Some(FinalStore { entries, entry_count, root_count })
            },
        }
    }
}

} // verus!
