//! Laws that span the creation of an archive and its reading.
use vstd::prelude::*;
use crate::arx::{walkable, Arx};
use crate::flat::{flat_spec, lemma_flat_len};
use crate::listing::{lemma_tree_stable_line_of, path_text, stands_at, tree_entry_line, lemma_flat_stable_lines, tree_stable_lines, lemma_flat_plain_lines, lemma_walkable_plain, lemma_walkable_stable, listing_spec, tree_lines, ListOutputView};
use crate::table::{flat_at, lemma_flat_then_lookup, lemma_flat_walkable, lookup_sorted, stored_as, table_lookup, TableLookup};
use crate::create::{add_entry_spec, entry_kind_view, new_entry_view, parents_of, AddFailure, EntryKind};
use crate::paths::rel_file_name;
use crate::tree::{law_adding_an_existing_dir_changes_nothing, 
    add_spec, fresh_entry, index_of_name, lemma_add_then_lookup, lemma_add_wf, lemma_index_of_name,
    tree_lookup, tree_size, tree_wf, EntryView, NodeView,
};

verus! {

/// What is added to an archive is read back: once a file or a link is added
/// under `parents`, the laid-out entry store has, at the path made of
/// `parents` and the entry's name, an entry that stores exactly it. The
/// store is searchable along that path by bisection.
pub proof fn law_added_entry_is_read_back(c: Seq<EntryView>, parents: Seq<Seq<u8>>, e: EntryView)
    requires
        tree_wf(c),
        !(e.node is Dir),
        add_spec(c, parents, Some(e)).1 is Ok,
        tree_size(add_spec(c, parents, Some(e)).0) <= u32::MAX,
    ensures
        ({
            let c2 = add_spec(c, parents, Some(e)).0;
            let t = flat_spec(c2, 0, None);
            let path = parents.push(e.name);
            &&& lookup_sorted(t, 0, c2.len() as int, path)
            &&& table_lookup(t, 0, c2.len() as int, path) matches TableLookup::Found(i)
                && 0 <= i < t.len() && stored_as(t[i], e)
        }),
{
    let c2 = add_spec(c, parents, Some(e)).0;
    lemma_add_wf(c, parents, Some(e));
    lemma_add_then_lookup(c, parents, e);
    lemma_flat_then_lookup(c2, parents.push(e.name));
    crate::flat::lemma_flat_len(c2, 0, None);
}

/// What a path leads to bears the path's last name.
proof fn lemma_lookup_name(c: Seq<EntryView>, p: Seq<Seq<u8>>)
    ensures
        tree_lookup(c, p) matches Some(x) ==> x.name == p.last(),
    decreases p.len(),
{
    if p.len() > 0 {
        lemma_index_of_name(c, p[0]);
        let k = index_of_name(c, p[0]);
        if k >= 0 && p.len() > 1 {
            if let NodeView::Dir(cc) = c[k].node {
                lemma_lookup_name(cc, p.drop_first());
            }
        }
    }
}

/// A directory added to an archive is read back as a directory at its path.
pub proof fn law_added_dir_is_read_back(c: Seq<EntryView>, parents: Seq<Seq<u8>>, e: EntryView)
    requires
        tree_wf(c),
        e.node is Dir,
        fresh_entry(Some(e)),
        add_spec(c, parents, Some(e)).1 is Ok,
        tree_size(add_spec(c, parents, Some(e)).0) <= u32::MAX,
    ensures
        ({
            let c2 = add_spec(c, parents, Some(e)).0;
            let t = flat_spec(c2, 0, None);
            let path = parents.push(e.name);
            table_lookup(t, 0, c2.len() as int, path) matches TableLookup::Found(i) && 0 <= i < t.len()
                && t[i].name == e.name && t[i].kind is Dir
        }),
{
    let c2 = add_spec(c, parents, Some(e)).0;
    lemma_add_wf(c, parents, Some(e));
    lemma_add_then_lookup(c, parents, e);
    lemma_flat_then_lookup(c2, parents.push(e.name));
    lemma_lookup_name(c2, parents.push(e.name));
    crate::flat::lemma_flat_len(c2, 0, None);
}

/// Listing never fails on an archive whose tree can be walked: every range
/// lies in the store and the directories do not loop. Both the plain and the
/// stable listing then succeed.
pub proof fn law_walkable_archive_lists(arx: Arx, stable: bool)
    requires
        walkable(arx.table(), arx.root.first as int, arx.root.count as int, arx.entries@.len()),
    ensures
        listing_spec(arx, stable) is Some,
{
    let t = arx.table();
    assert(t.len() == arx.entries@.len());
    lemma_walkable_plain(t, arx.root.first as nat, arx.root.count as nat, 0, Seq::empty(), t.len());
    lemma_walkable_stable(t, arx.root.first as nat, arx.root.count as nat, 0, Seq::empty(), t.len());
}

/// An archive whose entry store is the laid-out form of a forest, with the
/// forest at its root, can be walked to the end, and so is always listed:
/// neither a walk nor a listing of what the creator wrote fails on the
/// archive's side.
pub proof fn law_created_archive_lists(c: Seq<EntryView>, arx: Arx, stable: bool)
    requires
        tree_size(c) <= u32::MAX,
        arx.table() == flat_spec(c, 0, None),
        arx.root.first == 0,
        arx.root.count == c.len(),
    ensures
        walkable(arx.table(), arx.root.first as int, arx.root.count as int, arx.entries@.len()),
        listing_spec(arx, stable) is Some,
{
    let t = arx.table();
    lemma_flat_len(c, 0, None);
    assert(t.subrange(0, tree_size(c) as int) =~= t);
    lemma_flat_walkable(t, c, 0, None, tree_size(c));
    law_walkable_archive_lists(arx, stable);
}

/// Adding a directory at a path where the tree already has a directory
/// changes nothing and succeeds, whatever attributes the new one has: the
/// existing directory, its attributes and all its descendants are kept.
pub proof fn law_adding_an_existing_dir_path(
    tree: Seq<EntryView>,
    path: Seq<char>,
    uid: u64,
    gid: u64,
    mode: u64,
    mtime: u64,
)
    requires
        tree_wf(tree),
        rel_file_name(path) matches Some(name) && (tree_lookup(tree, parents_of(path).push(name)) matches Some(d)
            && d.node is Dir),
    ensures
        add_entry_spec(tree, path, Some(EntryKind::Dir), uid, gid, mode, mtime) == (tree, Ok::<(), AddFailure>(())),
{
    let name = rel_file_name(path).unwrap();
    let e = new_entry_view(name, EntryKind::Dir, uid, gid, mode, mtime);
    law_adding_an_existing_dir_changes_nothing(tree, parents_of(path), e);
}

/// What the plain listing of an archive made from a tree prints is the
/// tree: the path of each entry of the tree on a line of its own, depth
/// first with the entries of each directory in name order, the line of a
/// directory before those of its children.
pub proof fn law_created_archive_lists_its_tree(c: Seq<EntryView>, arx: Arx)
    requires
        tree_wf(c),
        tree_size(c) <= u32::MAX,
        arx.table() == flat_spec(c, 0, None),
        arx.root.first == 0,
        arx.root.count == c.len(),
    ensures
        listing_spec(arx, false) == Some(ListOutputView::Plain(tree_lines(c, 0, Seq::empty()))),
{
    let t = arx.table();
    lemma_flat_len(c, 0, None);
    crate::flat::lemma_inner_total(c);
    assert(t.subrange(0, tree_size(c) as int) =~= t);
    assert(flat_at(t, c, 0, None));
    lemma_flat_plain_lines(t, c, 0, None, 0, Seq::empty(), t.len());
}

/// An entry of any kind added at a free path is found at that path with the
/// attributes it was added with: its file name, owner `uid`, group `gid`,
/// rights `mode` and modification time `mtime`, and holding what its kind
/// says (an empty directory, the file's content and size, the link's
/// target). The laid-out store, looked up along the same path, holds it with
/// the same name and attributes.
pub proof fn law_added_entry_keeps_its_attributes(
    tree: Seq<EntryView>,
    path: Seq<char>,
    kind: EntryKind,
    uid: u64,
    gid: u64,
    mode: u64,
    mtime: u64,
)
    requires
        tree_wf(tree),
        rel_file_name(path) matches Some(name) && tree_lookup(tree, parents_of(path).push(name)) is None,
        add_entry_spec(tree, path, Some(kind), uid, gid, mode, mtime).1 is Ok,
    ensures
        ({
            let name = rel_file_name(path).unwrap();
            let after = add_entry_spec(tree, path, Some(kind), uid, gid, mode, mtime).0;
            let at = parents_of(path).push(name);
            &&& tree_lookup(after, at) matches Some(x) && x.name == name && x.owner == uid && x.group == gid
                && x.rights == mode && x.mtime == mtime && x.node == entry_kind_view(kind)
            &&& tree_size(after) <= u32::MAX ==> (table_lookup(flat_spec(after, 0, None), 0, after.len() as int, at)
                matches TableLookup::Found(i) && 0 <= i < tree_size(after) && flat_spec(after, 0, None)[i].name
                == name && flat_spec(after, 0, None)[i].owner == uid && flat_spec(after, 0, None)[i].group == gid
                && flat_spec(after, 0, None)[i].rights == mode && flat_spec(after, 0, None)[i].mtime == mtime)
        }),
{
    let name = rel_file_name(path).unwrap();
    let e = new_entry_view(name, kind, uid, gid, mode, mtime);
    let parents = parents_of(path);
    let after = add_spec(tree, parents, Some(e)).0;
    lemma_add_then_lookup(tree, parents, e);
    lemma_add_wf(tree, parents, Some(e));
    if tree_size(after) <= u32::MAX {
        lemma_flat_then_lookup(after, parents.push(name));
        lemma_flat_len(after, 0, None);
    }
}

/// What the stable listing of an archive made from a tree prints is the
/// tree: for each entry of the tree, depth first with the entries of each
/// directory in name order, a line giving its kind, its modification time,
/// for a file its size, its whole path from the root (the names along it
/// joined with `/`), and for a link its target; the line of a directory comes
/// before those of its children.
pub proof fn law_created_archive_stable_listing_is_its_tree(c: Seq<EntryView>, arx: Arx)
    requires
        tree_wf(c),
        tree_size(c) <= u32::MAX,
        arx.table() == flat_spec(c, 0, None),
        arx.root.first == 0,
        arx.root.count == c.len(),
    ensures
        listing_spec(arx, true) == Some(ListOutputView::Stable(tree_stable_lines(c, 0, Seq::empty()))),
{
    let t = arx.table();
    lemma_flat_len(c, 0, None);
    crate::flat::lemma_inner_total(c);
    assert(t.subrange(0, tree_size(c) as int) =~= t);
    assert(flat_at(t, c, 0, None));
    lemma_flat_stable_lines(t, c, 0, None, 0, Seq::empty(), t.len());
}

/// The stable listing of an archive made from a tree names each entry by its
/// whole path: for every path that the tree holds, the listing holds the
/// line of the entry at that path, made with the names along the path from
/// the root joined with `/`, for a link as for a file or a directory.
pub proof fn law_stable_listing_names_each_entry_by_its_path(c: Seq<EntryView>, arx: Arx, p: Seq<Seq<u8>>)
    requires
        tree_wf(c),
        tree_size(c) <= u32::MAX,
        arx.table() == flat_spec(c, 0, None),
        arx.root.first == 0,
        arx.root.count == c.len(),
        tree_lookup(c, p) is Some,
    ensures
        listing_spec(arx, true) matches Some(ListOutputView::Stable(s)) && exists|i: int|
            stands_at(s, tree_entry_line(tree_lookup(c, p).unwrap(), path_text(p)), i),
{
    law_created_archive_stable_listing_is_its_tree(c, arx);
    lemma_index_of_name(c, p[0]);
    let i = lemma_tree_stable_line_of(c, 0, Seq::empty(), p);
    assert(Seq::<Seq<char>>::empty() + path_text(p) =~= path_text(p));
    let s = tree_stable_lines(c, 0, Seq::empty());
    let line = tree_entry_line(tree_lookup(c, p).unwrap(), path_text(p));
    assert(stands_at(s, line, i));
    assert(exists|j: int| stands_at(s, line, j));
    assert(listing_spec(arx, true) == Some(ListOutputView::Stable(s)));
    match listing_spec(arx, true) {
        Some(ListOutputView::Stable(s2)) => {
            assert(s2 == s);
            assert(stands_at(s2, line, i));
        },
        _ => {},
    }
}

} // verus!
