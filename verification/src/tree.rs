//! The tree of entries that an archive is built from, before it is laid out
//! as a flat entry store.
//!
//! Each directory keeps its children sorted by name, with no name twice.
use vstd::prelude::*;
use crate::bytes::{
    compare_bytes, lemma_lex_order_equal, lemma_lex_order_antisym, lemma_lex_lt_trans,
    lemma_lex_lt_irrefl, lex_lt, lex_order, Order,
};

verus! {

/// Where a content lives: a pack and an index in that pack.
#[derive(Clone, Copy, PartialEq, Eq, Structural, Debug)]
pub struct ContentAddress {
    pub pack_id: u16,
    pub content_id: u32,
}

// ---------------------------------------------------------------------------
// The mathematical model of the tree.
// ---------------------------------------------------------------------------

/// What an entry of the tree is.
pub enum NodeView {
    Dir(Seq<EntryView>),
    File { content: ContentAddress, size: u64 },
    Link { target: Seq<u8> },
}

/// An entry of the tree: its name, its attributes and what it is.
pub struct EntryView {
    pub name: Seq<u8>,
    pub owner: u64,
    pub group: u64,
    pub rights: u64,
    pub mtime: u64,
    pub node: NodeView,
}

/// The number of entries in a forest, at every depth.
pub open spec fn tree_size(s: Seq<EntryView>) -> nat
    decreases s,
{
    if s.len() == 0 {
        0
    } else {
        tree_size(s.drop_last()) + 1 + inner_size(s.last())
    }
}

/// The number of entries strictly below an entry.
pub open spec fn inner_size(e: EntryView) -> nat
    decreases e,
{
    match e.node {
        NodeView::Dir(c) => tree_size(c),
        _ => 0,
    }
}

/// Names are strictly increasing.
pub open spec fn sorted(c: Seq<EntryView>) -> bool {
    forall|i: int, j: int| 0 <= i < j < c.len() ==> lex_lt(#[trigger] c[i].name, #[trigger] c[j].name)
}

/// Every directory of the forest has its children sorted by name.
pub open spec fn tree_wf(c: Seq<EntryView>) -> bool
    decreases c,
{
    &&& sorted(c)
    &&& c.len() > 0 ==> {
        &&& tree_wf(c.drop_last())
        &&& match c.last().node {
            NodeView::Dir(cc) => tree_wf(cc),
            _ => true,
        }
    }
}

/// Index of the entry named `name`, or -1.
pub open spec fn index_of_name(c: Seq<EntryView>, name: Seq<u8>) -> int
    decreases c.len(),
{
    if c.len() == 0 {
        -1
    } else if c.last().name == name {
        c.len() - 1
    } else {
        index_of_name(c.drop_last(), name)
    }
}

/// Number of entries whose name sorts before `name` (in a sorted list: where
/// `name` would be inserted).
pub open spec fn lower_bound(c: Seq<EntryView>, name: Seq<u8>) -> int
    decreases c.len(),
{
    if c.len() == 0 {
        0
    } else if lex_lt(c.last().name, name) {
        c.len() as int
    } else {
        lower_bound(c.drop_last(), name)
    }
}

/// The entry found by following `path` from a forest.
pub open spec fn tree_lookup(c: Seq<EntryView>, path: Seq<Seq<u8>>) -> Option<EntryView>
    decreases path.len(),
{
    if path.len() == 0 {
        None
    } else {
        let k = index_of_name(c, path[0]);
        if k < 0 {
            None
        } else if path.len() == 1 {
            Some(c[k])
        } else {
            match c[k].node {
                NodeView::Dir(cc) => tree_lookup(cc, path.drop_first()),
                _ => None,
            }
        }
    }
}

// ---------------------------------------------------------------------------
// Lemmas on the model.
// ---------------------------------------------------------------------------

/// Two different names are ordered one way or the other.
pub proof fn lemma_lex_total(a: Seq<u8>, b: Seq<u8>)
    ensures
        a != b ==> (lex_lt(a, b) || lex_lt(b, a)),
        !(lex_lt(a, b) && lex_lt(b, a)),
{
    lemma_lex_order_equal(a, b);
    lemma_lex_order_antisym(a, b);
    lemma_lex_order_antisym(b, a);
}

pub proof fn lemma_index_of_name(c: Seq<EntryView>, name: Seq<u8>)
    ensures
        -1 <= index_of_name(c, name) < c.len(),
        index_of_name(c, name) >= 0 ==> c[index_of_name(c, name)].name == name,
        index_of_name(c, name) < 0 ==> forall|i: int| 0 <= i < c.len() ==> c[i].name != name,
    decreases c.len(),
{
    if c.len() > 0 && c.last().name != name {
        lemma_index_of_name(c.drop_last(), name);
        assert forall|i: int| 0 <= i < c.len() - 1 implies c[i] == c.drop_last()[i] by {}
    }
}

/// In a sorted list, the index of a name is the only index holding it.
pub proof fn lemma_index_of_name_sorted(c: Seq<EntryView>, name: Seq<u8>, k: int)
    requires
        sorted(c),
        0 <= k < c.len(),
        c[k].name == name,
    ensures
        index_of_name(c, name) == k,
{
    lemma_index_of_name(c, name);
    let r = index_of_name(c, name);
    if r != k {
        if r < k {
            assert(lex_lt(c[r].name, c[k].name));
        } else {
            assert(lex_lt(c[k].name, c[r].name));
        }
        lemma_lex_lt_irrefl(name);
    }
}

pub proof fn lemma_lower_bound(c: Seq<EntryView>, name: Seq<u8>)
    requires
        sorted(c),
    ensures
        0 <= lower_bound(c, name) <= c.len(),
        forall|i: int| 0 <= i < lower_bound(c, name) ==> lex_lt(#[trigger] c[i].name, name),
        forall|i: int| lower_bound(c, name) <= i < c.len() ==> !lex_lt(#[trigger] c[i].name, name),
    decreases c.len(),
{
    if c.len() > 0 {
        let lb = lower_bound(c, name);
        if lex_lt(c.last().name, name) {
            assert forall|i: int| 0 <= i < c.len() implies lex_lt(#[trigger] c[i].name, name) by {
                if i < c.len() - 1 {
                    assert(lex_lt(c[i].name, c[c.len() - 1].name));
                    lemma_lex_lt_trans(c[i].name, c.last().name, name);
                }
            }
        } else {
            let d = c.drop_last();
            assert(sorted(d)) by {
                assert forall|i: int, j: int| 0 <= i < j < d.len() implies lex_lt(
                    #[trigger] d[i].name,
                    #[trigger] d[j].name,
                ) by {
                    assert(d[i] == c[i] && d[j] == c[j]);
                }
            }
            lemma_lower_bound(d, name);
            assert forall|i: int| 0 <= i < lb implies lex_lt(#[trigger] c[i].name, name) by {
                assert(c[i] == d[i]);
            }
            assert forall|i: int| lb <= i < c.len() implies !lex_lt(#[trigger] c[i].name, name) by {
                if i < c.len() - 1 {
                    assert(c[i] == d[i]);
                }
            }
        }
    }
}

/// A sorted list stays sorted when an entry whose name is absent goes in at
/// its lower bound.
pub proof fn lemma_insert_sorted(c: Seq<EntryView>, e: EntryView)
    requires
        sorted(c),
        index_of_name(c, e.name) < 0,
    ensures
        sorted(c.insert(lower_bound(c, e.name), e)),
{
    let lb = lower_bound(c, e.name);
    lemma_lower_bound(c, e.name);
    lemma_index_of_name(c, e.name);
    let r = c.insert(lb, e);
    c.insert_ensures(lb, e);
    assert forall|i: int, j: int| 0 <= i < j < r.len() implies lex_lt(
        #[trigger] r[i].name,
        #[trigger] r[j].name,
    ) by {
        if j < lb {
            assert(r[i] == c[i] && r[j] == c[j]);
        } else if j == lb {
            assert(r[i] == c[i]);
        } else if i < lb {
            assert(r[i] == c[i] && r[j] == c[j - 1]);
            assert(lex_lt(c[i].name, e.name));
            assert(!lex_lt(c[j - 1].name, e.name));
            lemma_lex_total(c[j - 1].name, e.name);
            lemma_lex_lt_trans(c[i].name, e.name, c[j - 1].name);
        } else if i == lb {
            assert(r[j] == c[j - 1]);
            assert(!lex_lt(c[j - 1].name, e.name));
            lemma_lex_total(c[j - 1].name, e.name);
        } else {
            assert(r[i] == c[i - 1] && r[j] == c[j - 1]);
        }
    }
}

/// A sorted list stays sorted when an entry is replaced by one of the same name.
pub proof fn lemma_update_sorted(c: Seq<EntryView>, k: int, e: EntryView)
    requires
        sorted(c),
        0 <= k < c.len(),
        c[k].name == e.name,
    ensures
        sorted(c.update(k, e)),
{
    let r = c.update(k, e);
    assert forall|i: int, j: int| 0 <= i < j < r.len() implies lex_lt(
        #[trigger] r[i].name,
        #[trigger] r[j].name,
    ) by {
        assert(c[i].name == r[i].name && c[j].name == r[j].name);
    }
}

/// Every element of a well-formed forest that is a directory is itself
/// well-formed.
pub proof fn lemma_tree_wf_child(c: Seq<EntryView>, k: int)
    requires
        tree_wf(c),
        0 <= k < c.len(),
    ensures
        match c[k].node {
            NodeView::Dir(cc) => tree_wf(cc),
            _ => true,
        },
    decreases c.len(),
{
    if k < c.len() - 1 {
        lemma_tree_wf_child(c.drop_last(), k);
        assert(c.drop_last()[k] == c[k]);
    }
}

/// A forest is well-formed when it is sorted and each directory in it is.
pub proof fn lemma_tree_wf_intro(c: Seq<EntryView>)
    requires
        sorted(c),
        forall|k: int| 0 <= k < c.len() ==> match #[trigger] c[k].node {
            NodeView::Dir(cc) => tree_wf(cc),
            _ => true,
        },
    ensures
        tree_wf(c),
    decreases c.len(),
{
    if c.len() > 0 {
        let d = c.drop_last();
        assert(sorted(d)) by {
            assert forall|i: int, j: int| 0 <= i < j < d.len() implies lex_lt(
                #[trigger] d[i].name,
                #[trigger] d[j].name,
            ) by {
                assert(d[i] == c[i] && d[j] == c[j]);
            }
        }
        assert forall|k: int| 0 <= k < d.len() implies match #[trigger] d[k].node {
            NodeView::Dir(cc) => tree_wf(cc),
            _ => true,
        } by {
            assert(d[k] == c[k]);
        }
        lemma_tree_wf_intro(d);
        assert(c[c.len() - 1] == c.last());
    }
}


// ---------------------------------------------------------------------------
// Adding an entry to the model.
// ---------------------------------------------------------------------------

/// Why an entry cannot go where it was asked to go.
#[derive(Clone, Copy, PartialEq, Eq, Structural, Debug)]
pub enum Conflict {
    /// A parent of the entry is a file.
    ParentIsFile,
    /// A parent of the entry is a link.
    ParentIsLink,
    /// A directory is added where a file already is.
    DirOverFile,
    /// A directory is added where a link already is.
    DirOverLink,
    /// A file is added where an entry already is.
    FileExists,
    /// A link is added where an entry already is.
    LinkExists,
}

/// The directory made for a parent that was never added itself.
pub open spec fn default_dir_view(name: Seq<u8>) -> EntryView {
    EntryView {
        name,
        owner: 1000,
        group: 1000,
        rights: 0o755,
        mtime: 0,
        node: NodeView::Dir(Seq::empty()),
    }
}

/// The forest once a directory named `name` is sure to be in it.
pub open spec fn ensure_dir_spec(c: Seq<EntryView>, name: Seq<u8>) -> Seq<EntryView> {
    if index_of_name(c, name) >= 0 {
        c
    } else {
        c.insert(lower_bound(c, name), default_dir_view(name))
    }
}

/// Adds `e` among the entries `c`: the forest after, and the outcome.
pub open spec fn add_here_spec(c: Seq<EntryView>, e: EntryView) -> (Seq<EntryView>, Result<(), Conflict>) {
    let k = index_of_name(c, e.name);
    let inserted = c.insert(lower_bound(c, e.name), e);
    match e.node {
        NodeView::Dir(_) => if k >= 0 {
            match c[k].node {
                NodeView::Dir(_) => (c, Ok(())),
                NodeView::File { .. } => (c, Err(Conflict::DirOverFile)),
                NodeView::Link { .. } => (c, Err(Conflict::DirOverLink)),
            }
        } else {
            (inserted, Ok(()))
        },
        NodeView::File { .. } => if k >= 0 {
            (c, Err(Conflict::FileExists))
        } else {
            (inserted, Ok(()))
        },
        NodeView::Link { .. } => if k >= 0 {
            (c, Err(Conflict::LinkExists))
        } else {
            (inserted, Ok(()))
        },
    }
}

/// `e` with other children.
pub open spec fn with_children(e: EntryView, cc: Seq<EntryView>) -> EntryView {
    EntryView {
        name: e.name,
        owner: e.owner,
        group: e.group,
        rights: e.rights,
        mtime: e.mtime,
        node: NodeView::Dir(cc),
    }
}

/// Adds `e`, if there is one, in the directory reached by following
/// `parents` from `c`, making the missing directories on the way: the forest
/// after, and the outcome. The directories made on the way stay even where the
/// outcome is an error.
pub open spec fn add_spec(c: Seq<EntryView>, parents: Seq<Seq<u8>>, e: Option<EntryView>) -> (
    Seq<EntryView>,
    Result<(), Conflict>,
)
    decreases parents.len(),
{
    if parents.len() == 0 {
        match e {
            Some(e) => add_here_spec(c, e),
            None => (c, Ok(())),
        }
    } else {
        let c1 = ensure_dir_spec(c, parents[0]);
        let k = index_of_name(c1, parents[0]);
        match c1[k].node {
            NodeView::Dir(cc) => {
                let sub = add_spec(cc, parents.drop_first(), e);
                (c1.update(k, with_children(c1[k], sub.0)), sub.1)
            },
            NodeView::File { .. } => (c1, Err(Conflict::ParentIsFile)),
            NodeView::Link { .. } => (c1, Err(Conflict::ParentIsLink)),
        }
    }
}

/// A new entry keeps a forest well-formed where it is an empty directory or
/// not a directory at all.
pub open spec fn fresh_entry(e: Option<EntryView>) -> bool {
    match e {
        Some(e) => match e.node {
            NodeView::Dir(cc) => cc.len() == 0,
            _ => true,
        },
        None => true,
    }
}

proof fn lemma_ensure_dir(c: Seq<EntryView>, name: Seq<u8>)
    requires
        tree_wf(c),
    ensures
        tree_wf(ensure_dir_spec(c, name)),
        index_of_name(ensure_dir_spec(c, name), name) >= 0,
        forall|i: int|
            0 <= i < c.len() && c[i].name != name ==> #[trigger] index_of_name(
                ensure_dir_spec(c, name),
                c[i].name,
            ) >= 0,
{
    let c1 = ensure_dir_spec(c, name);
    lemma_index_of_name(c, name);
    if index_of_name(c, name) < 0 {
        let lb = lower_bound(c, name);
        lemma_lower_bound(c, name);
        lemma_insert_sorted(c, default_dir_view(name));
        c.insert_ensures(lb, default_dir_view(name));
        assert forall|k: int| 0 <= k < c1.len() implies match #[trigger] c1[k].node {
            NodeView::Dir(cc) => tree_wf(cc),
            _ => true,
        } by {
            if k < lb {
                lemma_tree_wf_child(c, k);
            } else if k > lb {
                lemma_tree_wf_child(c, k - 1);
                assert(c1[k] == c[k - 1]);
            } else {
                assert(tree_wf(Seq::<EntryView>::empty()));
            }
        }
        lemma_tree_wf_intro(c1);
        lemma_index_of_name_sorted(c1, name, lb);
        assert forall|i: int| 0 <= i < c.len() && c[i].name != name implies #[trigger] index_of_name(
            c1,
            c[i].name,
        ) >= 0 by {
            if i < lb {
                lemma_index_of_name_sorted(c1, c[i].name, i);
            } else {
                assert(c1[i + 1] == c[i]);
                lemma_index_of_name_sorted(c1, c[i].name, i + 1);
            }
        }
    } else {
        assert forall|i: int| 0 <= i < c.len() && c[i].name != name implies #[trigger] index_of_name(
            c1,
            c[i].name,
        ) >= 0 by {
            lemma_index_of_name_sorted(c1, c[i].name, i);
        }
    }
}

proof fn lemma_add_here_wf(c: Seq<EntryView>, e: EntryView)
    requires
        tree_wf(c),
        fresh_entry(Some(e)),
    ensures
        tree_wf(add_here_spec(c, e).0),
{
    lemma_index_of_name(c, e.name);
    if index_of_name(c, e.name) < 0 {
        let lb = lower_bound(c, e.name);
        let c1 = c.insert(lb, e);
        lemma_lower_bound(c, e.name);
        lemma_insert_sorted(c, e);
        c.insert_ensures(lb, e);
        assert forall|k: int| 0 <= k < c1.len() implies match #[trigger] c1[k].node {
            NodeView::Dir(cc) => tree_wf(cc),
            _ => true,
        } by {
            if k < lb {
                lemma_tree_wf_child(c, k);
            } else if k > lb {
                lemma_tree_wf_child(c, k - 1);
                assert(c1[k] == c[k - 1]);
            } else {
                match e.node {
                    NodeView::Dir(cc) => {
                        assert(cc =~= Seq::<EntryView>::empty());
                    },
                    _ => {},
                }
            }
        }
        lemma_tree_wf_intro(c1);
    }
}

/// Adding keeps every directory of the forest sorted by name.
pub proof fn lemma_add_wf(c: Seq<EntryView>, parents: Seq<Seq<u8>>, e: Option<EntryView>)
    requires
        tree_wf(c),
        fresh_entry(e),
    ensures
        tree_wf(add_spec(c, parents, e).0),
    decreases parents.len(),
{
    if parents.len() == 0 {
        if let Some(e) = e {
            lemma_add_here_wf(c, e);
        }
    } else {
        let c1 = ensure_dir_spec(c, parents[0]);
        lemma_ensure_dir(c, parents[0]);
        let k = index_of_name(c1, parents[0]);
        lemma_index_of_name(c1, parents[0]);
        lemma_tree_wf_child(c1, k);
        match c1[k].node {
            NodeView::Dir(cc) => {
                lemma_add_wf(cc, parents.drop_first(), e);
                let sub = add_spec(cc, parents.drop_first(), e);
                let c2 = c1.update(k, with_children(c1[k], sub.0));
                lemma_update_sorted(c1, k, with_children(c1[k], sub.0));
                assert forall|j: int| 0 <= j < c2.len() implies match #[trigger] c2[j].node {
                    NodeView::Dir(dd) => tree_wf(dd),
                    _ => true,
                } by {
                    if j != k {
                        lemma_tree_wf_child(c1, j);
                    }
                }
                lemma_tree_wf_intro(c2);
            },
            _ => {},
        }
    }
}

/// What is added is what a lookup by its path then finds: the entry itself,
/// or, for a directory that was already there, that directory.
pub proof fn lemma_add_then_lookup(c: Seq<EntryView>, parents: Seq<Seq<u8>>, e: EntryView)
    requires
        tree_wf(c),
        add_spec(c, parents, Some(e)).1 is Ok,
    ensures
        ({
            let found = tree_lookup(add_spec(c, parents, Some(e)).0, parents.push(e.name));
            &&& match e.node {
                NodeView::Dir(_) => found matches Some(x) && x.node is Dir,
                _ => found == Some(e),
            }
            &&& tree_lookup(c, parents.push(e.name)) is None ==> found == Some(e)
        }),
    decreases parents.len(),
{
    let path = parents.push(e.name);
    if parents.len() == 0 {
        let r = add_here_spec(c, e).0;
        lemma_index_of_name(c, e.name);
        let k = index_of_name(c, e.name);
        if k >= 0 {
            assert(r == c);
            lemma_index_of_name_sorted(c, e.name, k);
            assert(path[0] == e.name);
            assert(tree_lookup(c, path) == Some(c[k]));
        } else {
            let lb = lower_bound(c, e.name);
            lemma_lower_bound(c, e.name);
            lemma_insert_sorted(c, e);
            c.insert_ensures(lb, e);
            lemma_index_of_name_sorted(r, e.name, lb);
        }
        assert(path[0] == e.name);
    } else {
        let c1 = ensure_dir_spec(c, parents[0]);
        lemma_ensure_dir(c, parents[0]);
        let k = index_of_name(c1, parents[0]);
        lemma_index_of_name(c1, parents[0]);
        lemma_tree_wf_child(c1, k);
        match c1[k].node {
            NodeView::Dir(cc) => {
                lemma_add_then_lookup(cc, parents.drop_first(), e);
                let sub = add_spec(cc, parents.drop_first(), Some(e));
                let c2 = c1.update(k, with_children(c1[k], sub.0));
                lemma_update_sorted(c1, k, with_children(c1[k], sub.0));
                lemma_index_of_name_sorted(c2, parents[0], k);
                assert(path[0] == parents[0]);
                assert(path.drop_first() =~= parents.drop_first().push(e.name));
                lemma_index_of_name(c, parents[0]);
                if index_of_name(c, parents[0]) >= 0 {
                    assert(c1 == c);
                    assert(tree_lookup(c, path) == tree_lookup(cc, path.drop_first()));
                } else {
                    let lb = lower_bound(c, parents[0]);
                    lemma_lower_bound(c, parents[0]);
                    lemma_insert_sorted(c, default_dir_view(parents[0]));
                    c.insert_ensures(lb, default_dir_view(parents[0]));
                    lemma_index_of_name_sorted(c1, parents[0], lb);
                    assert(cc =~= Seq::<EntryView>::empty());
                    lemma_index_of_name(cc, path.drop_first()[0]);
                    assert(tree_lookup(cc, path.drop_first()) is None);
                }
            },
            _ => {},
        }
    }
}


/// The name and attributes of an entry, without what it holds.
pub open spec fn attrs(e: EntryView) -> (Seq<u8>, u64, u64, u64, u64) {
    (e.name, e.owner, e.group, e.rights, e.mtime)
}

/// Adding an entry under `parents` leaves a directory at each of them: one
/// that was there keeps its attributes, one that was missing is made with
/// owner and group 1000, rights 0o755 and mtime 0.
pub proof fn law_parents_are_made_with_defaults(c: Seq<EntryView>, parents: Seq<Seq<u8>>, e: Option<EntryView>, j: int)
    requires
        tree_wf(c),
        add_spec(c, parents, e).1 is Ok,
        1 <= j <= parents.len(),
    ensures
        tree_lookup(add_spec(c, parents, e).0, parents.take(j)) matches Some(d) && d.node is Dir && match tree_lookup(
            c,
            parents.take(j),
        ) {
            None => attrs(d) == attrs(default_dir_view(parents[j - 1])),
            Some(d0) => attrs(d) == attrs(d0),
        },
    decreases parents.len(),
{
    let p0 = parents[0];
    let rest = parents.drop_first();
    let c1 = ensure_dir_spec(c, p0);
    lemma_ensure_dir(c, p0);
    lemma_index_of_name(c, p0);
    let k = index_of_name(c1, p0);
    lemma_index_of_name(c1, p0);
    lemma_tree_wf_child(c1, k);
    let existed = index_of_name(c, p0) >= 0;
    if !existed {
        let lb = lower_bound(c, p0);
        lemma_lower_bound(c, p0);
        lemma_insert_sorted(c, default_dir_view(p0));
        c.insert_ensures(lb, default_dir_view(p0));
        lemma_index_of_name_sorted(c1, p0, lb);
        assert(c1[k] == default_dir_view(p0));
    }
    if let NodeView::Dir(cc) = c1[k].node {
        let sub = add_spec(cc, rest, e);
        let c2 = c1.update(k, with_children(c1[k], sub.0));
        assert(add_spec(c, parents, e).0 == c2);
        lemma_update_sorted(c1, k, with_children(c1[k], sub.0));
        lemma_index_of_name_sorted(c2, p0, k);
        let path = parents.take(j);
        assert(path[0] == p0);
        if j == 1 {
            assert(tree_lookup(c2, path) == Some(c2[k]));
            if existed {
                assert(tree_lookup(c, path) == Some(c[k]));
            } else {
                assert(tree_lookup(c, path) is None);
            }
        } else {
            assert(path.drop_first() =~= rest.take(j - 1));
            law_parents_are_made_with_defaults(cc, rest, e, j - 1);
            assert(rest[j - 2] == parents[j - 1]);
            assert(tree_lookup(c2, path) == tree_lookup(sub.0, rest.take(j - 1)));
            if existed {
                assert(tree_lookup(c, path) == tree_lookup(cc, rest.take(j - 1)));
            } else {
                assert(cc == Seq::<EntryView>::empty());
                assert(tree_lookup(cc, rest.take(j - 1)) is None);
                assert(tree_lookup(c, path) is None);
            }
        }
    }
}

/// Adding a directory where a directory of that name already is changes
/// nothing, at any depth: the existing directory keeps its attributes and
/// everything under it.
pub proof fn law_adding_an_existing_dir_changes_nothing(c: Seq<EntryView>, parents: Seq<Seq<u8>>, e: EntryView)
    requires
        tree_wf(c),
        e.node is Dir,
        tree_lookup(c, parents.push(e.name)) matches Some(d) && d.node is Dir,
    ensures
        add_spec(c, parents, Some(e)) == (c, Ok::<(), Conflict>(())),
    decreases parents.len(),
{
    let path = parents.push(e.name);
    let p0 = path[0];
    lemma_index_of_name(c, p0);
    let k = index_of_name(c, p0);
    if parents.len() == 0 {
        assert(p0 == e.name);
        assert(c[k].node is Dir);
    } else {
        assert(p0 == parents[0]);
        assert(ensure_dir_spec(c, p0) == c);
        lemma_tree_wf_child(c, k);
        if let NodeView::Dir(cc) = c[k].node {
            let rest = parents.drop_first();
            assert(path.drop_first() =~= rest.push(e.name));
            law_adding_an_existing_dir_changes_nothing(cc, rest, e);
            assert(with_children(c[k], cc) == c[k]);
            assert(c.update(k, c[k]) =~= c);
        }
    }
}

// ---------------------------------------------------------------------------
// The executable tree.
// ---------------------------------------------------------------------------

/// What an entry of the tree is.
pub enum Kind {
    Dir(DirEntry),
    File { content: ContentAddress, size: u64 },
    Link { target: Vec<u8> },
}

/// An entry of the tree being built.
pub struct Entry {
    pub name: Vec<u8>,
    pub owner: u64,
    pub group: u64,
    pub rights: u64,
    pub mtime: u64,
    pub kind: Kind,
}

/// A directory being built: its children, sorted by name.
///
/// This is needed as entries may be added without recursion, and so the
/// parent of "foo/bar/baz.txt" ("foo/bar") has to be found when it is added.
pub struct DirEntry {
    pub children: Vec<Entry>,
}

/// The model of a list of entries.
pub open spec fn view_entries(s: Seq<Entry>) -> Seq<EntryView>
    decreases s,
{
    if s.len() == 0 {
        Seq::empty()
    } else {
        view_entries(s.drop_last()).push(view_entry(s.last()))
    }
}

/// The model of an entry.
pub open spec fn view_entry(e: Entry) -> EntryView
    decreases e,
{
    EntryView {
        name: e.name@,
        owner: e.owner,
        group: e.group,
        rights: e.rights,
        mtime: e.mtime,
        node: match e.kind {
            Kind::Dir(d) => NodeView::Dir(view_entries(d.children@)),
            Kind::File { content, size } => NodeView::File { content, size },
            Kind::Link { target } => NodeView::Link { target: target@ },
        },
    }
}

impl View for DirEntry {
    type V = Seq<EntryView>;

    open spec fn view(&self) -> Seq<EntryView> {
        view_entries(self.children@)
    }
}

/// The model of a list is the list of the models.
pub proof fn lemma_view_entries(s: Seq<Entry>)
    ensures
        view_entries(s).len() == s.len(),
        forall|i: int| 0 <= i < s.len() ==> #[trigger] view_entries(s)[i] == view_entry(s[i]),
    decreases s.len(),
{
    if s.len() > 0 {
        lemma_view_entries(s.drop_last());
        assert forall|i: int| 0 <= i < s.len() implies #[trigger] view_entries(s)[i] == view_entry(
            s[i],
        ) by {
            if i < s.len() - 1 {
                assert(s.drop_last()[i] == s[i]);
            }
        }
    }
}

/// Two lists of entries whose elements have the same models have the same model.
pub proof fn lemma_view_entries_ext(s: Seq<Entry>, t: Seq<EntryView>)
    requires
        s.len() == t.len(),
        forall|i: int| 0 <= i < s.len() ==> view_entry(#[trigger] s[i]) == t[i],
    ensures
        view_entries(s) == t,
{
    lemma_view_entries(s);
    assert(view_entries(s) =~= t);
}

impl Entry {
    /// A directory entry with no children.
    pub fn new_dir(name: Vec<u8>, owner: u64, group: u64, rights: u64, mtime: u64) -> (r: Self)
        ensures
            view_entry(r) == (EntryView {
                name: name@,
                owner,
                group,
                rights,
                mtime,
                node: NodeView::Dir(Seq::empty()),
            }),
    {
        let r = Entry { name, owner, group, rights, mtime, kind: Kind::Dir(DirEntry::new()) };
        assert(view_entries(Seq::<Entry>::empty()) =~= Seq::<EntryView>::empty());
        assert(r.kind matches Kind::Dir(d) && d.children@ =~= Seq::<Entry>::empty());
        r
    }

    /// A file entry.
    pub fn new_file(
        name: Vec<u8>,
        owner: u64,
        group: u64,
        rights: u64,
        mtime: u64,
        content: ContentAddress,
        size: u64,
    ) -> (r: Self)
        ensures
            view_entry(r) == (EntryView {
                name: name@,
                owner,
                group,
                rights,
                mtime,
                node: NodeView::File { content, size },
            }),
    {
        Entry { name, owner, group, rights, mtime, kind: Kind::File { content, size } }
    }

    /// A link entry.
    pub fn new_link(
        name: Vec<u8>,
        owner: u64,
        group: u64,
        rights: u64,
        mtime: u64,
        target: Vec<u8>,
    ) -> (r: Self)
        ensures
            view_entry(r) == (EntryView {
                name: name@,
                owner,
                group,
                rights,
                mtime,
                node: NodeView::Link { target: target@ },
            }),
    {
        Entry { name, owner, group, rights, mtime, kind: Kind::Link { target } }
    }

    /// The number of entries under this one: all the entries of a directory
    /// at every depth, and none for a file or a link.
    pub fn nb_children(&self) -> (r: u32)
        requires
            inner_size(view_entry(*self)) <= u32::MAX,
        ensures
            r == inner_size(view_entry(*self)),
        decreases self,
    {
        match &self.kind {
            Kind::Dir(dir) => dir.nb_entry(),
            _ => 0,
        }
    }
}

impl DirEntry {
    /// An empty directory.
    pub fn new() -> (r: Self)
        ensures
            r@ == Seq::<EntryView>::empty(),
    {
        let r = DirEntry { children: Vec::new() };
        assert(r@ =~= Seq::<EntryView>::empty());
        r
    }

    /// The number of direct children.
    pub fn nb_children(&self) -> (r: u32)
        requires
            self@.len() <= u32::MAX,
        ensures
            r == self@.len(),
    {
        proof {
            lemma_view_entries(self.children@);
        }
        self.children.len() as u32
    }

    /// The number of entries in this directory, at every depth.
    pub fn nb_entry(&self) -> (r: u32)
        requires
            tree_size(self@) <= u32::MAX,
        ensures
            r == tree_size(self@),
        decreases self,
    {
        let mut total: u32 = 0;
        let mut i: usize = 0;
        proof {
            lemma_view_entries(self.children@);
        }
        while i < self.children.len()
            invariant
                i <= self.children@.len(),
                view_entries(self.children@).len() == self.children@.len(),
                tree_size(self@) <= u32::MAX,
                total == tree_size(self@.subrange(0, i as int)),
                forall|j: int| 0 <= j < self.children@.len() ==> #[trigger] self@[j] == view_entry(self.children@[j]),
            decreases self.children@.len() - i,
        {
            let ghost s = self@;
            proof {
                assert(s.subrange(0, i + 1).drop_last() =~= s.subrange(0, i as int));
                assert(s.subrange(0, i + 1).last() == s[i as int]);
                lemma_tree_size_prefix(s, i + 1);
            }
            let sub = self.children[i].nb_children();
            total = total + 1 + sub;
            i = i + 1;
        }
        proof {
            assert(self@.subrange(0, i as int) =~= self@);
        }
        total
    }
}

/// A prefix of a forest has no more entries than the forest.
pub proof fn lemma_tree_size_prefix(s: Seq<EntryView>, n: int)
    requires
        0 <= n <= s.len(),
    ensures
        tree_size(s.subrange(0, n)) <= tree_size(s),
    decreases s.len(),
{
    if n < s.len() {
        assert(s.drop_last().subrange(0, n) =~= s.subrange(0, n));
        lemma_tree_size_prefix(s.drop_last(), n);
    } else {
        assert(s.subrange(0, n) =~= s);
    }
}


impl DirEntry {
    /// Where `name` is or would go among the children: the position, and
    /// whether a child has that name there.
    pub fn search(&self, name: &[u8]) -> (r: (usize, bool))
        requires
            sorted(self@),
        ensures
            r.0 == lower_bound(self@, name@),
            r.1 == (index_of_name(self@, name@) >= 0),
            r.1 ==> index_of_name(self@, name@) == r.0,
    {
        proof {
            lemma_view_entries(self.children@);
            lemma_lower_bound(self@, name@);
            lemma_index_of_name(self@, name@);
        }
        let ghost c = self@;
        let mut lo: usize = 0;
        let mut hi: usize = self.children.len();
        while lo < hi
            invariant
                0 <= lo <= hi <= c.len(),
                c == self@,
                sorted(c),
                c.len() == self.children@.len(),
                forall|j: int| 0 <= j < c.len() ==> #[trigger] c[j] == view_entry(self.children@[j]),
                forall|j: int| 0 <= j < lo ==> lex_lt(#[trigger] c[j].name, name@),
                forall|j: int| hi <= j < c.len() ==> !lex_lt(#[trigger] c[j].name, name@),
            decreases hi - lo,
        {
            let mid = lo + (hi - lo) / 2;
            let o = compare_bytes(self.children[mid].name.as_slice(), name);
            proof {
                assert(c[mid as int].name == self.children@[mid as int].name@);
            }
            if o == Order::Less {
                proof {
                    assert forall|j: int| 0 <= j <= mid implies lex_lt(#[trigger] c[j].name, name@) by {
                        if j < mid {
                            assert(lex_lt(c[j].name, c[mid as int].name));
                            lemma_lex_lt_trans(c[j].name, c[mid as int].name, name@);
                        }
                    }
                }
                lo = mid + 1;
            } else {
                proof {
                    assert forall|j: int| mid <= j < c.len() implies !lex_lt(#[trigger] c[j].name, name@) by {
                        if j > mid {
                            assert(lex_lt(c[mid as int].name, c[j].name));
                            lemma_lex_total(c[j].name, name@);
                            lemma_lex_order_antisym(c[mid as int].name, name@);
                            if lex_lt(c[j].name, name@) {
                                lemma_lex_lt_trans(c[mid as int].name, c[j].name, name@);
                            }
                        }
                    }
                }
                hi = mid;
            }
        }
        proof {
            let lb = lower_bound(c, name@);
            if lb < lo {
                assert(!lex_lt(c[lb].name, name@));
            }
            if lo < lb {
                assert(lex_lt(c[lo as int].name, name@));
            }
        }
        if lo < self.children.len() {
            let found = compare_bytes(self.children[lo].name.as_slice(), name) == Order::Equal;
            proof {
                lemma_lex_order_equal(c[lo as int].name, name@);
                if found {
                    lemma_index_of_name_sorted(c, name@, lo as int);
                } else if index_of_name(c, name@) >= 0 {
                    let k = index_of_name(c, name@);
                    lemma_lex_lt_irrefl(name@);
                    if k < lo {
                        assert(lex_lt(c[k].name, name@));
                    } else if k > lo {
                        assert(lex_lt(c[lo as int].name, c[k].name));
                        assert(!lex_lt(c[lo as int].name, name@));
                        lemma_lex_total(c[lo as int].name, name@);
                    }
                }
            }
            (lo, found)
        } else {
            proof {
                if index_of_name(c, name@) >= 0 {
                    let k = index_of_name(c, name@);
                    assert(lex_lt(c[k].name, name@));
                    lemma_lex_lt_irrefl(name@);
                }
            }
            (lo, false)
        }
    }

    /// Makes sure a child named `dir_name` exists, adding a directory with
    /// default attributes (owner and group 1000, rights 0o755, mtime 0) if
    /// none does. Returns where that child is.
    pub fn ensure_dir(&mut self, dir_name: &[u8]) -> (k: usize)
        requires
            tree_wf(old(self)@),
        ensures
            final(self)@ == ensure_dir_spec(old(self)@, dir_name@),
            k == index_of_name(final(self)@, dir_name@),
            0 <= k < final(self)@.len(),
    {
        proof {
            lemma_ensure_dir(old(self)@, dir_name@);
        }
        let (pos, found) = self.search(dir_name);
        if found {
            proof {
                lemma_index_of_name(self@, dir_name@);
            }
            pos
        } else {
            let ghost c = self@;
            let entry = Entry::new_dir(crate::bytes::copy_bytes(dir_name), 1000, 1000, 0o755, 0);
            proof {
                lemma_view_entries(self.children@);
                lemma_lower_bound(c, dir_name@);
            }
            self.children.insert(pos, entry);
            proof {
                let c1 = c.insert(pos as int, default_dir_view(dir_name@));
                c.insert_ensures(pos as int, default_dir_view(dir_name@));
                self.children@.insert_ensures(pos as int, entry);
                lemma_view_entries_ext(self.children@, c1);
                lemma_lower_bound(c, dir_name@);
                lemma_insert_sorted(c, default_dir_view(dir_name@));
                lemma_index_of_name_sorted(c1, dir_name@, pos as int);
            }
            pos
        }
    }
}


/// The model of an entry that may be absent.
pub open spec fn view_opt(e: Option<Entry>) -> Option<EntryView> {
    match e {
        Some(e) => Some(view_entry(e)),
        None => None,
    }
}

/// The names of a list of byte vectors.
pub open spec fn names_view(p: Seq<Vec<u8>>) -> Seq<Seq<u8>> {
    p.map_values(|v: Vec<u8>| v@)
}

impl DirEntry {
    /// Adds `e` among the children of this directory.
    ///
    /// A directory over a directory is accepted and changes nothing; any other
    /// clash of names is refused and changes nothing.
    pub fn add_here(&mut self, e: Entry) -> (r: Result<(), Conflict>)
        requires
            tree_wf(old(self)@),
        ensures
            (final(self)@, r) == add_here_spec(old(self)@, view_entry(e)),
            fresh_entry(Some(view_entry(e))) ==> tree_wf(final(self)@),
    {
        let ghost c = self@;
        let ghost ev = view_entry(e);
        proof {
            if fresh_entry(Some(ev)) {
                lemma_add_here_wf(c, ev);
            }
        }
        let (pos, found) = self.search(e.name.as_slice());
        proof {
            lemma_view_entries(self.children@);
            lemma_lower_bound(c, ev.name);
            lemma_index_of_name(c, ev.name);
        }
        if found {
            let res = match &e.kind {
                Kind::Dir(_) => match &self.children[pos].kind {
                    Kind::Dir(_) => Ok(()),
                    Kind::File { .. } => Err(Conflict::DirOverFile),
                    Kind::Link { .. } => Err(Conflict::DirOverLink),
                },
                Kind::File { .. } => Err(Conflict::FileExists),
                Kind::Link { .. } => Err(Conflict::LinkExists),
            };
            proof {
                assert(c[pos as int] == view_entry(self.children@[pos as int]));
            }
            res
        } else {
            self.children.insert(pos, e);
            proof {
                let c1 = c.insert(pos as int, ev);
                c.insert_ensures(pos as int, ev);
                lemma_view_entries_ext(self.children@, c1);
            }
            Ok(())
        }
    }

    /// Adds `e` in the directory reached by following `parents[depth..]` from
    /// this directory, making the missing directories on the way (owner and
    /// group 1000, rights 0o755, mtime 0).
    pub fn add_at(&mut self, parents: &[Vec<u8>], depth: usize, e: Option<Entry>) -> (r: Result<(), Conflict>)
        requires
            tree_wf(old(self)@),
            depth <= parents@.len(),
            fresh_entry(view_opt(e)),
        ensures
            (final(self)@, r) == add_spec(old(self)@, names_view(parents@).skip(depth as int), view_opt(e)),
            tree_wf(final(self)@),
        decreases parents@.len() - depth,
    {
        let ghost c = self@;
        let ghost ps = names_view(parents@).skip(depth as int);
        proof {
            lemma_add_wf(c, ps, view_opt(e));
        }
        if depth == parents.len() {
            proof {
                assert(ps.len() == 0);
            }
            return match e {
                Some(e) => self.add_here(e),
                None => Ok(()),
            };
        }
        let k = self.ensure_dir(parents[depth].as_slice());
        let ghost c1 = self@;
        proof {
            assert(ps[0] == parents@[depth as int]@);
            lemma_ensure_dir(c, ps[0]);
            lemma_view_entries(self.children@);
            lemma_tree_wf_child(c1, k as int);
            assert(c1[k as int] == view_entry(self.children@[k as int]));
            assert(names_view(parents@).skip(depth + 1) =~= ps.drop_first());
        }
        let ghost pre = self.children@;
        let r = match &mut self.children[k].kind {
            Kind::Dir(d) => d.add_at(parents, depth + 1, e),
            Kind::File { .. } => Err(Conflict::ParentIsFile),
            Kind::Link { .. } => Err(Conflict::ParentIsLink),
        };
        proof {
            let target = add_spec(c, ps, view_opt(e)).0;
            lemma_view_entries(self.children@);
            assert forall|j: int| 0 <= j < self.children@.len() implies view_entry(
                #[trigger] self.children@[j],
            ) == target[j] by {
                if j != k {
                    assert(self.children@[j] == pre[j]);
                    assert(c1[j] == view_entry(pre[j]));
                }
            }
            lemma_view_entries_ext(self.children@, target);
        }
        r
    }
}


impl DirEntry {
    /// The number of entries in this directory, at every depth, or `None`
    /// where it does not fit in a `u32`.
    pub fn checked_nb_entry(&self) -> (r: Option<u32>)
        ensures
            match r {
                Some(n) => n == tree_size(self@),
                None => tree_size(self@) > u32::MAX,
            },
        decreases self,
    {
        let mut total: u32 = 0;
        let mut i: usize = 0;
        proof {
            lemma_view_entries(self.children@);
        }
        while i < self.children.len()
            invariant
                i <= self.children@.len(),
                view_entries(self.children@).len() == self.children@.len(),
                total == tree_size(self@.subrange(0, i as int)),
                forall|j: int| 0 <= j < self.children@.len() ==> #[trigger] self@[j] == view_entry(self.children@[j]),
            decreases self.children@.len() - i,
        {
            let ghost s = self@;
            proof {
                assert(s.subrange(0, i + 1).drop_last() =~= s.subrange(0, i as int));
                assert(s.subrange(0, i + 1).last() == s[i as int]);
                lemma_tree_size_prefix(s, i + 1);
            }
            proof {
                assert(s[i as int] == view_entry(self.children@[i as int]));
            }
            let sub: u32 = match &self.children[i].kind {
                Kind::Dir(d) => match d.checked_nb_entry() {
                    Some(n) => n,
                    None => {
                        proof {
                            assert(inner_size(s[i as int]) == tree_size(d@));
                        }
                        return None;
                    },
                },
                _ => 0,
            };
            proof {
                assert(sub == inner_size(s[i as int]));
            }
            match total.checked_add(1) {
                Some(t1) => match t1.checked_add(sub) {
                    Some(t2) => {
                        total = t2;
                    },
                    None => {
                        return None;
                    },
                },
                None => {
                    return None;
                },
            }
            i = i + 1;
        }
        proof {
            assert(self@.subrange(0, i as int) =~= self@);
        }
        Some(total)
    }
}

} // verus!
