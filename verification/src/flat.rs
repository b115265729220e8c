//! Laying out the tree as a flat entry store.
//!
//! The children of a directory are stored one after another, sorted by name;
//! the root's children come first, then the children of each directory, in the
//! order the directories were stored, depth first.
use vstd::prelude::*;
use crate::bytes::copy_bytes;
use crate::tree::{
    inner_size, lemma_view_entries, tree_size, view_entries, view_entry, ContentAddress, DirEntry,
    Entry, EntryView, Kind, NodeView,
};

verus! {

/// What a stored entry is.
pub enum JbkKind {
    Dir { first_child: u32, nb_children: u32 },
    File { content: ContentAddress, size: u64 },
    Link { target: Vec<u8> },
}

/// An entry as it is stored in the entry store.
pub struct JbkEntry {
    pub parent: Option<u32>,
    pub name: Vec<u8>,
    pub owner: u64,
    pub group: u64,
    pub rights: u64,
    pub mtime: u64,
    pub kind: JbkKind,
}

/// The model of what a stored entry is.
pub enum JbkKindView {
    Dir { first_child: u32, nb_children: u32 },
    File { content: ContentAddress, size: u64 },
    Link { target: Seq<u8> },
}

/// The model of a stored entry.
pub struct JbkEntryView {
    pub parent: Option<u32>,
    pub name: Seq<u8>,
    pub owner: u64,
    pub group: u64,
    pub rights: u64,
    pub mtime: u64,
    pub kind: JbkKindView,
}

impl View for JbkEntry {
    type V = JbkEntryView;

    open spec fn view(&self) -> JbkEntryView {
        JbkEntryView {
            parent: self.parent,
            name: self.name@,
            owner: self.owner,
            group: self.group,
            rights: self.rights,
            mtime: self.mtime,
            kind: match self.kind {
                JbkKind::Dir { first_child, nb_children } => JbkKindView::Dir { first_child, nb_children },
                JbkKind::File { content, size } => JbkKindView::File { content, size },
                JbkKind::Link { target } => JbkKindView::Link { target: target@ },
            },
        }
    }
}

/// The models of a list of stored entries.
pub open spec fn view_jbk(s: Seq<JbkEntry>) -> Seq<JbkEntryView> {
    s.map_values(|e: JbkEntry| e@)
}

/// The entries strictly below the entries of a list.
pub open spec fn inner_total(s: Seq<EntryView>) -> nat
    decreases s.len(),
{
    if s.len() == 0 {
        0
    } else {
        inner_total(s.drop_last()) + inner_size(s.last())
    }
}

/// A tree entry as stored, given its parent and where its children start.
/// An empty directory says 0 for its first child.
pub open spec fn jbk_of(e: EntryView, parent: Option<u32>, first: int) -> JbkEntryView {
    JbkEntryView {
        parent,
        name: e.name,
        owner: e.owner,
        group: e.group,
        rights: e.rights,
        mtime: e.mtime,
        kind: match e.node {
            NodeView::Dir(cc) => JbkKindView::Dir {
                first_child: if cc.len() == 0 {
                    0
                } else {
                    first as u32
                },
                nb_children: cc.len() as u32,
            },
            NodeView::File { content, size } => JbkKindView::File { content, size },
            NodeView::Link { target } => JbkKindView::Link { target },
        },
    }
}

/// Where the children of `c[k]` start, when the children block of `c` starts at `b`.
pub open spec fn child_start(c: Seq<EntryView>, b: int, k: int) -> int {
    b + c.len() + inner_total(c.take(k))
}

/// The children block of `c`, stored from `b`, with parent `parent`.
pub open spec fn block(c: Seq<EntryView>, b: int, parent: Option<u32>) -> Seq<JbkEntryView> {
    Seq::new(c.len(), |k: int| jbk_of(c[k], parent, child_start(c, b, k)))
}

/// `c` stored from `b` with parent `parent`: its children block, then what is
/// below each of its children, in order.
pub open spec fn flat_spec(c: Seq<EntryView>, b: int, parent: Option<u32>) -> Seq<JbkEntryView>
    decreases c, 1int, 0int,
{
    block(c, b, parent) + subs_upto(c, b, c.len() as int)
}

/// What is below the first `k` entries of `c`, whose children block is at `b`.
pub open spec fn subs_upto(c: Seq<EntryView>, b: int, k: int) -> Seq<JbkEntryView>
    decreases c, 0int, k,
{
    if k <= 0 || k > c.len() {
        Seq::empty()
    } else {
        subs_upto(c, b, k - 1) + piece(c, b, k - 1)
    }
}

/// What is below `c[j]`.
pub open spec fn piece(c: Seq<EntryView>, b: int, j: int) -> Seq<JbkEntryView>
    decreases c, 0int, 0int,
{
    if 0 <= j < c.len() {
        match c[j].node {
            NodeView::Dir(cc) => flat_spec(cc, child_start(c, b, j), Some((b + j) as u32)),
            _ => Seq::empty(),
        }
    } else {
        Seq::empty()
    }
}


// ---------------------------------------------------------------------------
// Lemmas on the layout.
// ---------------------------------------------------------------------------

pub proof fn lemma_inner_total(s: Seq<EntryView>)
    ensures
        tree_size(s) == s.len() + inner_total(s),
    decreases s.len(),
{
    if s.len() > 0 {
        lemma_inner_total(s.drop_last());
    }
}

pub proof fn lemma_inner_total_step(s: Seq<EntryView>, k: int)
    requires
        0 <= k < s.len(),
    ensures
        inner_total(s.take(k + 1)) == inner_total(s.take(k)) + inner_size(s[k]),
{
    assert(s.take(k + 1).drop_last() =~= s.take(k));
    assert(s.take(k + 1).last() == s[k]);
}

pub proof fn lemma_inner_total_take_all(s: Seq<EntryView>)
    ensures
        inner_total(s.take(s.len() as int)) == inner_total(s),
{
    assert(s.take(s.len() as int) =~= s);
}

pub proof fn lemma_inner_total_mono(s: Seq<EntryView>, j: int, k: int)
    requires
        0 <= j <= k <= s.len(),
    ensures
        inner_total(s.take(j)) <= inner_total(s.take(k)),
    decreases k - j,
{
    if j < k {
        lemma_inner_total_mono(s, j, k - 1);
        lemma_inner_total_step(s, k - 1);
    }
}

/// A stored forest holds as many entries as the forest.
pub proof fn lemma_flat_len(c: Seq<EntryView>, b: int, parent: Option<u32>)
    ensures
        flat_spec(c, b, parent).len() == tree_size(c),
    decreases c, 1int, 0int,
{
    lemma_subs_len(c, b, c.len() as int);
    lemma_inner_total(c);
    lemma_inner_total_take_all(c);
}

pub proof fn lemma_subs_len(c: Seq<EntryView>, b: int, k: int)
    requires
        0 <= k <= c.len(),
    ensures
        subs_upto(c, b, k).len() == inner_total(c.take(k)),
    decreases c, 0int, k,
{
    if k == 0 {
        assert(c.take(0) =~= Seq::<EntryView>::empty());
    } else {
        lemma_subs_len(c, b, k - 1);
        lemma_piece_len(c, b, k - 1);
        lemma_inner_total_step(c, k - 1);
    }
}

pub proof fn lemma_piece_len(c: Seq<EntryView>, b: int, j: int)
    requires
        0 <= j < c.len(),
    ensures
        piece(c, b, j).len() == inner_size(c[j]),
    decreases c, 0int, 0int,
{
    match c[j].node {
        NodeView::Dir(cc) => {
            lemma_flat_len(cc, child_start(c, b, j), Some((b + j) as u32));
        },
        _ => {},
    }
}

// ---------------------------------------------------------------------------
// Laying out.
// ---------------------------------------------------------------------------

/// The stored form of a tree entry.
fn to_jbk(e: &Entry, parent: Option<u32>, first: u32) -> (r: JbkEntry)
    requires
        inner_size(view_entry(*e)) <= u32::MAX,
    ensures
        r@ == jbk_of(view_entry(*e), parent, first as int),
{
    let kind = match &e.kind {
        Kind::Dir(d) => {
            proof {
                lemma_view_entries(d.children@);
                lemma_inner_total(d@);
            }
            let nb = d.children.len() as u32;
            JbkKind::Dir { first_child: if nb == 0 { 0 } else { first }, nb_children: nb }
        },
        Kind::File { content, size } => JbkKind::File { content: *content, size: *size },
        Kind::Link { target } => JbkKind::Link { target: copy_bytes(target.as_slice()) },
    };
    JbkEntry {
        parent,
        name: copy_bytes(e.name.as_slice()),
        owner: e.owner,
        group: e.group,
        rights: e.rights,
        mtime: e.mtime,
        kind,
    }
}

/// Appends the stored form of the forest `children`, whose children block is
/// at `b`, to `out`.
fn flatten_into(children: &Vec<Entry>, b: u32, parent: Option<u32>, out: &mut Vec<JbkEntry>)
    requires
        b + tree_size(view_entries(children@)) <= u32::MAX,
    ensures
        view_jbk(final(out)@) == view_jbk(old(out)@) + flat_spec(view_entries(children@), b as int, parent),
    decreases children,
{
    let ghost c = view_entries(children@);
    let ghost out0 = view_jbk(out@);
    proof {
        lemma_view_entries(children@);
        lemma_inner_total(c);
        lemma_inner_total_take_all(c);
    }
    let n = children.len();
    let mut start: u32 = b + n as u32;
    let mut k: usize = 0;
    while k < n
        invariant
            n == children@.len(),
            c == view_entries(children@),
            c.len() == n,
            forall|j: int| 0 <= j < n ==> #[trigger] c[j] == view_entry(children@[j]),
            b + tree_size(c) <= u32::MAX,
            tree_size(c) == c.len() + inner_total(c),
            inner_total(c.take(n as int)) == inner_total(c),
            0 <= k <= n,
            start == child_start(c, b as int, k as int),
            view_jbk(out@) == out0 + block(c, b as int, parent).take(k as int),
        decreases n - k,
    {
        proof {
            lemma_inner_total_step(c, k as int);
            lemma_inner_total_mono(c, k as int + 1, n as int);
        }
        let e = &children[k];
        let sub = e.nb_children();
        let je = to_jbk(e, parent, start);
        let ghost before = out@;
        out.push(je);
        proof {
            assert(view_jbk(out@) =~= view_jbk(before).push(je@));
            assert(block(c, b as int, parent).take(k + 1) =~= block(c, b as int, parent).take(
                k as int,
            ).push(jbk_of(c[k as int], parent, child_start(c, b as int, k as int))));
        }
        start = start + sub;
        k = k + 1;
    }
    proof {
        assert(block(c, b as int, parent).take(n as int) =~= block(c, b as int, parent));
    }
    let ghost out1 = view_jbk(out@);
    start = b + n as u32;
    k = 0;
    while k < n
        invariant
            n == children@.len(),
            c == view_entries(children@),
            c.len() == n,
            forall|j: int| 0 <= j < n ==> #[trigger] c[j] == view_entry(children@[j]),
            b + tree_size(c) <= u32::MAX,
            tree_size(c) == c.len() + inner_total(c),
            inner_total(c.take(n as int)) == inner_total(c),
            0 <= k <= n,
            start == child_start(c, b as int, k as int),
            view_jbk(out@) == out1 + subs_upto(c, b as int, k as int),
        decreases n - k,
    {
        proof {
            lemma_inner_total_step(c, k as int);
            lemma_inner_total_mono(c, k as int + 1, n as int);
        }
        let e = &children[k];
        let sub = e.nb_children();
        match &e.kind {
            Kind::Dir(d) => {
                proof {
                    lemma_inner_total_mono(c, k as int, n as int);
                }
                flatten_into(&d.children, start, Some(b + k as u32), out);
            },
            _ => {},
        }
        proof {
            assert(subs_upto(c, b as int, k + 1) == subs_upto(c, b as int, k as int) + piece(
                c,
                b as int,
                k as int,
            ));
        }
        start = start + sub;
        k = k + 1;
    }
}

/// The whole tree as stored: the entry at index `i` of the result is the
/// entry that index `i` of the entry store names.
pub fn flat(tree: &DirEntry) -> (r: Vec<JbkEntry>)
    requires
        tree_size(tree@) <= u32::MAX,
    ensures
        view_jbk(r@) == flat_spec(tree@, 0, None),
{
    let mut out: Vec<JbkEntry> = Vec::new();
    proof {
        assert(view_jbk(out@) =~= Seq::<JbkEntryView>::empty());
    }
    flatten_into(&tree.children, 0, None, &mut out);
    proof {
        assert(Seq::<JbkEntryView>::empty() + flat_spec(tree@, 0, None) =~= flat_spec(tree@, 0, None));
    }
    out
}

} // verus!
