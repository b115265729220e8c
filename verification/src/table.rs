//! Finding entries by path in a stored entry store.
use vstd::prelude::*;
use crate::arx::walkable;
use crate::bytes::{
    compare_bytes, lemma_lex_order_antisym, lemma_lex_order_equal, lemma_lex_lt_irrefl,
    lemma_lex_lt_trans, lex_lt, Order,
};
use crate::flat::{
    block, child_start, flat_spec, inner_total, jbk_of, lemma_flat_len, lemma_inner_total,
    lemma_inner_total_mono, lemma_inner_total_step, lemma_inner_total_take_all, lemma_subs_len,
    piece, subs_upto, view_jbk, JbkEntry, JbkEntryView, JbkKind, JbkKindView,
};
use crate::tree::{
    index_of_name, inner_size, lemma_index_of_name, lemma_index_of_name_sorted, lemma_lex_total,
    lemma_tree_wf_child, sorted, tree_lookup, tree_size, tree_wf, EntryView, NodeView,
};

verus! {

/// A range of entries: `count` entries from `first`.
#[derive(Clone, Copy, PartialEq, Eq, Structural, Debug)]
pub struct EntryRange {
    pub first: u32,
    pub count: u32,
}

/// The outcome of following a path in a stored entry store.
pub enum TableLookup {
    /// The entry at that index.
    Found(int),
    /// No entry has that path.
    NotFound,
    /// A range that the path goes through is out of the store.
    Malformed,
}

/// The last index in `[first, first + count)` of an entry named `name`, or -1.
pub open spec fn find_in(t: Seq<JbkEntryView>, first: int, count: int, name: Seq<u8>) -> int
    decreases count,
{
    if count <= 0 {
        -1
    } else if t[first + count - 1].name == name {
        first + count - 1
    } else {
        find_in(t, first, count - 1, name)
    }
}

/// The range `[first, first + count)` is within the store.
pub open spec fn in_bounds(t: Seq<JbkEntryView>, first: int, count: int) -> bool {
    0 <= first && 0 <= count && first + count <= t.len() && first + count <= u32::MAX
}

/// The names of the range `[first, first + count)` strictly increase.
pub open spec fn range_sorted(t: Seq<JbkEntryView>, first: int, count: int) -> bool {
    forall|i: int, j: int|
        first <= i < j < first + count ==> lex_lt(#[trigger] t[i].name, #[trigger] t[j].name)
}

/// Follows `path` from the range `[first, first + count)`.
pub open spec fn table_lookup(t: Seq<JbkEntryView>, first: int, count: int, path: Seq<Seq<u8>>) -> TableLookup
    decreases path.len(),
{
    if !in_bounds(t, first, count) {
        TableLookup::Malformed
    } else if path.len() == 0 {
        TableLookup::NotFound
    } else {
        let i = find_in(t, first, count, path[0]);
        if i < 0 {
            TableLookup::NotFound
        } else if path.len() == 1 {
            TableLookup::Found(i)
        } else {
            match t[i].kind {
                JbkKindView::Dir { first_child, nb_children } => table_lookup(
                    t,
                    first_child as int,
                    nb_children as int,
                    path.drop_first(),
                ),
                _ => TableLookup::NotFound,
            }
        }
    }
}

/// Every range that following `path` reads is sorted by name.
pub open spec fn lookup_sorted(t: Seq<JbkEntryView>, first: int, count: int, path: Seq<Seq<u8>>) -> bool
    decreases path.len(),
{
    in_bounds(t, first, count) ==> {
        &&& range_sorted(t, first, count)
        &&& path.len() > 1 ==> {
            let i = find_in(t, first, count, path[0]);
            i >= 0 ==> match t[i].kind {
                JbkKindView::Dir { first_child, nb_children } => lookup_sorted(
                    t,
                    first_child as int,
                    nb_children as int,
                    path.drop_first(),
                ),
                _ => true,
            }
        }
    }
}

pub proof fn lemma_find_in(t: Seq<JbkEntryView>, first: int, count: int, name: Seq<u8>)
    requires
        in_bounds(t, first, count),
    ensures
        find_in(t, first, count, name) == -1 || (first <= find_in(t, first, count, name) < first
            + count && t[find_in(t, first, count, name)].name == name),
        find_in(t, first, count, name) == -1 ==> forall|i: int|
            first <= i < first + count ==> #[trigger] t[i].name != name,
    decreases count,
{
    if count > 0 && t[first + count - 1].name != name {
        lemma_find_in(t, first, count - 1, name);
    }
}

/// In a sorted range, an index holding `name` is the one `find_in` gives.
pub proof fn lemma_find_in_sorted(t: Seq<JbkEntryView>, first: int, count: int, name: Seq<u8>, k: int)
    requires
        in_bounds(t, first, count),
        range_sorted(t, first, count),
        first <= k < first + count,
        t[k].name == name,
    ensures
        find_in(t, first, count, name) == k,
{
    lemma_find_in(t, first, count, name);
    let r = find_in(t, first, count, name);
    if r != k {
        if r < k {
            assert(lex_lt(t[r].name, t[k].name));
        } else {
            assert(lex_lt(t[k].name, t[r].name));
        }
        lemma_lex_lt_irrefl(name);
    }
}

/// Looks for an entry named `name` in a range of the store, by bisection.
pub fn find_in_range(t: &Vec<JbkEntry>, first: u32, count: u32, name: &[u8]) -> (r: Option<u32>)
    requires
        in_bounds(view_jbk(t@), first as int, count as int),
    ensures
        r matches Some(i) ==> first <= i < first + count && t@[i as int].name@ == name@,
        range_sorted(view_jbk(t@), first as int, count as int) ==> (match r {
            Some(i) => find_in(view_jbk(t@), first as int, count as int, name@) == i,
            None => find_in(view_jbk(t@), first as int, count as int, name@) == -1,
        }),
{
    let ghost tv = view_jbk(t@);
    let mut lo: u32 = first;
    let mut hi: u32 = first + count;
    let ghost mut ok_lo = true;
    while lo < hi
        invariant
            tv == view_jbk(t@),
            in_bounds(tv, first as int, count as int),
            first <= lo <= hi <= first + count,
            first + count <= u32::MAX,
            range_sorted(tv, first as int, count as int) ==> (forall|j: int|
                first <= j < lo ==> lex_lt(#[trigger] tv[j].name, name@)),
            range_sorted(tv, first as int, count as int) ==> (forall|j: int|
                hi <= j < first + count ==> lex_lt(name@, #[trigger] tv[j].name)),
        decreases hi - lo,
    {
        let mid = lo + (hi - lo) / 2;
        let o = compare_bytes(t[mid as usize].name.as_slice(), name);
        proof {
            assert(tv[mid as int] == t@[mid as int]@);
        }
        if o == Order::Equal {
            proof {
                lemma_lex_order_equal(tv[mid as int].name, name@);
                if range_sorted(tv, first as int, count as int) {
                    lemma_find_in_sorted(tv, first as int, count as int, name@, mid as int);
                }
            }
            return Some(mid);
        } else if o == Order::Less {
            proof {
                if range_sorted(tv, first as int, count as int) {
                    assert forall|j: int| first <= j <= mid implies lex_lt(#[trigger] tv[j].name, name@) by {
                        if j < mid {
                            lemma_lex_lt_trans(tv[j].name, tv[mid as int].name, name@);
                        }
                    }
                }
            }
            lo = mid + 1;
        } else {
            proof {
                lemma_lex_order_antisym(name@, tv[mid as int].name);
                if range_sorted(tv, first as int, count as int) {
                    assert forall|j: int| mid <= j < first + count implies lex_lt(
                        name@,
                        #[trigger] tv[j].name,
                    ) by {
                        if j > mid {
                            lemma_lex_lt_trans(name@, tv[mid as int].name, tv[j].name);
                        }
                    }
                }
            }
            hi = mid;
        }
    }
    proof {
        lemma_find_in(tv, first as int, count as int, name@);
        if range_sorted(tv, first as int, count as int) {
            let k = find_in(tv, first as int, count as int, name@);
            if k >= 0 {
                lemma_lex_lt_irrefl(name@);
            }
        }
    }
    None
}


/// Why following a path found no entry.
#[derive(Clone, Copy, PartialEq, Eq, Structural, Debug)]
pub enum LookupFailure {
    /// No entry has that path.
    NotFound,
    /// A range that the path goes through is out of the store.
    Malformed,
}

/// The names of a path given as byte vectors.
pub open spec fn path_view(p: Seq<Vec<u8>>) -> Seq<Seq<u8>> {
    p.map_values(|v: Vec<u8>| v@)
}

/// Follows `path` from `range` in the store `t`: the index of the entry
/// reached.
pub fn lookup_path(t: &Vec<JbkEntry>, range: EntryRange, path: &[Vec<u8>]) -> (r: Result<u32, LookupFailure>)
    requires
        path@.len() > 0,
    ensures
        r matches Ok(i) ==> i < t@.len() && t@[i as int].name@ == path@.last()@,
        lookup_sorted(view_jbk(t@), range.first as int, range.count as int, path_view(path@)) ==> match r {
            Ok(i) => table_lookup(view_jbk(t@), range.first as int, range.count as int, path_view(path@))
                == TableLookup::Found(i as int),
            Err(LookupFailure::NotFound) => table_lookup(
                view_jbk(t@),
                range.first as int,
                range.count as int,
                path_view(path@),
            ) is NotFound,
            Err(LookupFailure::Malformed) => table_lookup(
                view_jbk(t@),
                range.first as int,
                range.count as int,
                path_view(path@),
            ) is Malformed,
        },
{
    let ghost tv = view_jbk(t@);
    let ghost pv = path_view(path@);
    let mut cur = range;
    let mut d: usize = 0;
    proof {
        assert(pv.skip(0) =~= pv);
    }
    loop
        invariant
            tv == view_jbk(t@),
            pv == path_view(path@),
            pv.len() == path@.len(),
            0 <= d < pv.len(),
            lookup_sorted(tv, range.first as int, range.count as int, pv) ==> lookup_sorted(
                tv,
                cur.first as int,
                cur.count as int,
                pv.skip(d as int),
            ),
            lookup_sorted(tv, range.first as int, range.count as int, pv) ==> table_lookup(
                tv,
                range.first as int,
                range.count as int,
                pv,
            ) == table_lookup(tv, cur.first as int, cur.count as int, pv.skip(d as int)),
        decreases pv.len() - d,
    {
        let ghost rest = pv.skip(d as int);
        proof {
            assert(rest[0] == path@[d as int]@);
        }
        if !(cur.first as u64 + cur.count as u64 <= t.len() as u64 && cur.first as u64 + cur.count as u64
            <= 0xffff_ffffu64) {
            return Err(LookupFailure::Malformed);
        }
        match find_in_range(t, cur.first, cur.count, path[d].as_slice()) {
            None => {
                return Err(LookupFailure::NotFound);
            },
            Some(i) => {
                if d + 1 == path.len() {
                    proof {
                        assert(path@.last() == path@[d as int]);
                    }
                    return Ok(i);
                }
                match &t[i as usize].kind {
                    JbkKind::Dir { first_child, nb_children } => {
                        proof {
                            assert(tv[i as int] == t@[i as int]@);
                            assert(rest.drop_first() =~= pv.skip(d + 1));
                        }
                        cur = EntryRange { first: *first_child, count: *nb_children };
                        d = d + 1;
                    },
                    _ => {
                        proof {
                            assert(tv[i as int] == t@[i as int]@);
                        }
                        return Err(LookupFailure::NotFound);
                    },
                }
            },
        }
    }
}

// ---------------------------------------------------------------------------
// What is stored is what is found.
// ---------------------------------------------------------------------------

/// `je` is how the entry `e` is stored: same name, same attributes, same
/// content or target, and as many children.
pub open spec fn stored_as(je: JbkEntryView, e: EntryView) -> bool {
    &&& je.name == e.name
    &&& je.owner == e.owner
    &&& je.group == e.group
    &&& je.rights == e.rights
    &&& je.mtime == e.mtime
    &&& match (je.kind, e.node) {
        (JbkKindView::Dir { nb_children, .. }, NodeView::Dir(cc)) => nb_children == cc.len(),
        (JbkKindView::File { content, size }, NodeView::File { content: c2, size: s2 }) => content
            == c2 && size == s2,
        (JbkKindView::Link { target }, NodeView::Link { target: t2 }) => target == t2,
        _ => false,
    }
}

proof fn lemma_subs_piece(c: Seq<EntryView>, b: int, n: int, k: int)
    requires
        0 <= k < n <= c.len(),
    ensures
        (inner_total(c.take(k)) + inner_size(c[k])) as int <= subs_upto(c, b, n).len(),
        subs_upto(c, b, n).subrange(
            inner_total(c.take(k)) as int,
            (inner_total(c.take(k)) + inner_size(c[k])) as int,
        ) == piece(c, b, k),
    decreases n,
{
    lemma_subs_len(c, b, n);
    lemma_subs_len(c, b, n - 1);
    lemma_inner_total_step(c, n - 1);
    crate::flat::lemma_piece_len(c, b, n - 1);
    crate::flat::lemma_piece_len(c, b, k);
    let s = subs_upto(c, b, n);
    let s1 = subs_upto(c, b, n - 1);
    assert(s == s1 + piece(c, b, n - 1));
    if k < n - 1 {
        lemma_subs_piece(c, b, n - 1, k);
        lemma_inner_total_step(c, k);
        lemma_inner_total_mono(c, k + 1, n - 1);
        assert(s.subrange(inner_total(c.take(k)) as int, (inner_total(c.take(k)) + inner_size(c[k])) as int)
            =~= s1.subrange(inner_total(c.take(k)) as int, (inner_total(c.take(k)) + inner_size(c[k])) as int));
    } else {
        assert(s.subrange(inner_total(c.take(k)) as int, (inner_total(c.take(k)) + inner_size(c[k])) as int)
            =~= piece(c, b, k));
    }
}

/// Looking up a path in a stored forest finds what looking it up in the
/// forest finds, stored as that entry.
proof fn lemma_flat_lookup(t: Seq<JbkEntryView>, c: Seq<EntryView>, b: int, parent: Option<u32>, p: Seq<Seq<u8>>)
    requires
        tree_wf(c),
        p.len() > 0,
        0 <= b,
        b + tree_size(c) <= t.len(),
        t.len() <= u32::MAX,
        t.subrange(b, b + tree_size(c)) == flat_spec(c, b, parent),
    ensures
        lookup_sorted(t, b, c.len() as int, p),
        match tree_lookup(c, p) {
            Some(e) => table_lookup(t, b, c.len() as int, p) matches TableLookup::Found(i) && 0 <= i
                < t.len() && stored_as(t[i], e),
            None => table_lookup(t, b, c.len() as int, p) is NotFound,
        },
    decreases p.len(),
{
    let n = c.len() as int;
    let f = flat_spec(c, b, parent);
    let blk = block(c, b, parent);
    lemma_flat_len(c, b, parent);
    crate::flat::lemma_inner_total(c);
    assert(f == blk + subs_upto(c, b, n));
    // The block of `c` sits at `b`.
    assert forall|k: int| 0 <= k < n implies #[trigger] t[b + k] == jbk_of(c[k], parent, child_start(c, b, k)) by {
        assert(t[b + k] == t.subrange(b, b + tree_size(c))[k]);
        assert(f[k] == blk[k]);
    }
    assert(range_sorted(t, b, n)) by {
        assert forall|i: int, j: int| b <= i < j < b + n implies lex_lt(#[trigger] t[i].name, #[trigger] t[j].name) by {
            assert(t[b + (i - b)] == jbk_of(c[i - b], parent, child_start(c, b, i - b)));
            assert(t[b + (j - b)] == jbk_of(c[j - b], parent, child_start(c, b, j - b)));
            assert(lex_lt(c[i - b].name, c[j - b].name));
        }
    }
    let name = p[0];
    assert(in_bounds(t, b, n));
    lemma_index_of_name(c, name);
    let k = index_of_name(c, name);
    lemma_find_in(t, b, n, name);
    if k < 0 {
        if find_in(t, b, n, name) >= 0 {
            let i = find_in(t, b, n, name);
            assert(t[b + (i - b)].name == c[i - b].name);
        }
        assert(find_in(t, b, n, name) == -1);
        assert(tree_lookup(c, p) is None);
        assert(table_lookup(t, b, n, p) is NotFound);
    } else {
        let je = t[b + k];
        assert(je == jbk_of(c[k], parent, child_start(c, b, k)));
        lemma_find_in_sorted(t, b, n, name, b + k);
        assert(find_in(t, b, n, name) == b + k);
        if p.len() == 1 {
            assert(tree_lookup(c, p) == Some(c[k]));
            assert(table_lookup(t, b, n, p) == TableLookup::Found(b + k));
            match c[k].node {
                NodeView::Dir(cc) => {
                    lemma_inner_total_step(c, k);
                    lemma_inner_total_mono(c, k + 1, n);
                    lemma_inner_total_take_all(c);
                    crate::flat::lemma_inner_total(cc);
                    assert(cc.len() <= u32::MAX);
                },
                _ => {},
            }
            assert(stored_as(je, c[k]));
        } else {
            lemma_tree_wf_child(c, k);
            let rest = p.drop_first();
            match c[k].node {
                NodeView::Dir(cc) => {
                    let start = child_start(c, b, k);
                    lemma_inner_total_step(c, k);
                    lemma_inner_total_mono(c, k + 1, n);
                    lemma_inner_total_take_all(c);
                    assert(start + tree_size(cc) <= b + tree_size(c));
                    lemma_flat_len(cc, start, Some((b + k) as u32));
                    assert(tree_lookup(c, p) == tree_lookup(cc, rest));
                    if cc.len() > 0 {
                        assert(je.kind == JbkKindView::Dir { first_child: start as u32, nb_children: cc.len() as u32 });
                        // The children of `c[k]` are stored at `start`.
                        lemma_subs_piece(c, b, n, k);
                        let it = inner_total(c.take(k)) as int;
                        assert(t.subrange(start, start + tree_size(cc)) =~= flat_spec(cc, start, Some((b + k) as u32))) by {
                            assert forall|j: int| 0 <= j < tree_size(cc) implies #[trigger] t.subrange(start, start + tree_size(cc))[j]
                                == flat_spec(cc, start, Some((b + k) as u32))[j] by {
                                assert(t[start + j] == t.subrange(b, b + tree_size(c))[n + it + j]);
                                assert(f[n + it + j] == subs_upto(c, b, n)[it + j]);
                                assert(subs_upto(c, b, n)[it + j] == subs_upto(c, b, n).subrange(it, (it + inner_size(c[k])) as int)[j]);
                            }
                        }
                        lemma_flat_lookup(t, cc, start, Some((b + k) as u32), rest);
                        assert(table_lookup(t, b, n, p) == table_lookup(t, start, cc.len() as int, rest));
                    } else {
                        assert(je.kind == JbkKindView::Dir { first_child: 0, nb_children: 0 });
                        lemma_index_of_name(cc, rest[0]);
                        assert(tree_lookup(cc, rest) is None);
                        assert(in_bounds(t, 0, 0));
                        assert(find_in(t, 0, 0, rest[0]) == -1);
                        assert(table_lookup(t, 0, 0, rest) is NotFound);
                        assert(lookup_sorted(t, 0, 0, rest));
                        assert(table_lookup(t, b, n, p) == table_lookup(t, 0, 0, rest));
                    }
                },
                NodeView::File { .. } => {
                    assert(tree_lookup(c, p) is None);
                    assert(table_lookup(t, b, n, p) is NotFound);
                },
                NodeView::Link { .. } => {
                    assert(tree_lookup(c, p) is None);
                    assert(table_lookup(t, b, n, p) is NotFound);
                },
            }
        }
    }
}

/// What a lookup in the stored form of a tree gives back is what a lookup in
/// the tree gives: for every path, the entry stored for it, with its name,
/// attributes, content or target and number of children, or nothing when the
/// tree has no entry at that path.
pub proof fn lemma_flat_then_lookup(c: Seq<EntryView>, p: Seq<Seq<u8>>)
    requires
        tree_wf(c),
        tree_size(c) <= u32::MAX,
        p.len() > 0,
    ensures
        lookup_sorted(flat_spec(c, 0, None), 0, c.len() as int, p),
        match tree_lookup(c, p) {
            Some(e) => table_lookup(flat_spec(c, 0, None), 0, c.len() as int, p) matches TableLookup::Found(i)
                && 0 <= i < tree_size(c) && stored_as(flat_spec(c, 0, None)[i], e),
            None => table_lookup(flat_spec(c, 0, None), 0, c.len() as int, p) is NotFound,
        },
{
    let t = flat_spec(c, 0, None);
    lemma_flat_len(c, 0, None);
    assert(t.subrange(0, tree_size(c) as int) =~= t);
    lemma_flat_lookup(t, c, 0, None, p);
}

/// A stored forest can be walked: each range of children lies in the store,
/// and no directory is more entries down than the forest holds.
pub proof fn lemma_flat_walkable(t: Seq<JbkEntryView>, c: Seq<EntryView>, b: int, parent: Option<u32>, d: nat)
    requires
        tree_size(c) <= d,
        0 <= b,
        b + tree_size(c) <= t.len(),
        t.len() <= u32::MAX,
        t.subrange(b, b + tree_size(c)) == flat_spec(c, b, parent),
    ensures
        walkable(t, b, c.len() as int, d),
    decreases d,
{
    let n = c.len() as int;
    let f = flat_spec(c, b, parent);
    let blk = block(c, b, parent);
    lemma_flat_len(c, b, parent);
    crate::flat::lemma_inner_total(c);
    assert(f == blk + subs_upto(c, b, n));
    assert forall|k: int| 0 <= k < n implies #[trigger] t[b + k] == jbk_of(c[k], parent, child_start(c, b, k)) by {
        assert(t[b + k] == t.subrange(b, b + tree_size(c))[k]);
        assert(f[k] == blk[k]);
    }
    assert forall|i: int|
        b <= i < b + n implies match #[trigger] t[i].kind {
            JbkKindView::Dir { first_child, nb_children } => d > 0 && walkable(
                t,
                first_child as int,
                nb_children as int,
                (d - 1) as nat,
            ),
            _ => true,
        } by {
        let k = i - b;
        assert(t[b + k] == jbk_of(c[k], parent, child_start(c, b, k)));
        if let NodeView::Dir(cc) = c[k].node {
            let start = child_start(c, b, k);
            lemma_inner_total_step(c, k);
            lemma_inner_total_mono(c, k + 1, n);
            lemma_inner_total_take_all(c);
            assert(start + tree_size(cc) <= b + tree_size(c));
            assert(tree_size(cc) + 1 <= tree_size(c));
            crate::flat::lemma_inner_total(cc);
            lemma_flat_len(cc, start, Some((b + k) as u32));
            if cc.len() > 0 {
                lemma_subs_piece(c, b, n, k);
                let it = inner_total(c.take(k)) as int;
                assert(t.subrange(start, start + tree_size(cc)) =~= flat_spec(cc, start, Some((b + k) as u32))) by {
                    assert forall|j: int| 0 <= j < tree_size(cc) implies #[trigger] t.subrange(start, start + tree_size(cc))[j]
                        == flat_spec(cc, start, Some((b + k) as u32))[j] by {
                        assert(t[start + j] == t.subrange(b, b + tree_size(c))[n + it + j]);
                        assert(f[n + it + j] == subs_upto(c, b, n)[it + j]);
                        assert(subs_upto(c, b, n)[it + j] == subs_upto(c, b, n).subrange(it, (it + inner_size(c[k])) as int)[j]);
                    }
                }
                lemma_flat_walkable(t, cc, start, Some((b + k) as u32), (d - 1) as nat);
            } else {
                assert(walkable(t, 0, 0, (d - 1) as nat));
            }
        }
    }
}

/// Where the stored entries sit: the range `[first, first + count)` lies in
/// the store, its names strictly increase, each of its entries names
/// `parent` as its parent, and each directory in it with children has them
/// placed the same way at its first child, naming it as their parent, at
/// most `depth` levels down.
pub open spec fn placed(t: Seq<JbkEntryView>, first: int, count: int, parent: Option<u32>, depth: nat) -> bool
    decreases depth,
{
    &&& 0 <= first
    &&& 0 <= count
    &&& first + count <= t.len()
    &&& range_sorted(t, first, count)
    &&& forall|i: int|
        first <= i < first + count ==> (#[trigger] t[i]).parent == parent && match t[i].kind {
            JbkKindView::Dir { first_child, nb_children } => nb_children == 0 || (depth > 0 && placed(
                t,
                first_child as int,
                nb_children as int,
                Some(i as u32),
                (depth - 1) as nat,
            )),
            _ => true,
        }
}

/// A stored forest is placed: the children of each directory sit together
/// at its first child, sorted by name, naming it as their parent.
pub proof fn lemma_flat_placed(t: Seq<JbkEntryView>, c: Seq<EntryView>, b: int, parent: Option<u32>, d: nat)
    requires
        tree_wf(c),
        tree_size(c) <= d,
        0 <= b,
        b + tree_size(c) <= t.len(),
        t.len() <= u32::MAX,
        t.subrange(b, b + tree_size(c)) == flat_spec(c, b, parent),
    ensures
        placed(t, b, c.len() as int, parent, d),
    decreases d,
{
    let n = c.len() as int;
    let f = flat_spec(c, b, parent);
    let blk = block(c, b, parent);
    lemma_flat_len(c, b, parent);
    crate::flat::lemma_inner_total(c);
    assert(f == blk + subs_upto(c, b, n));
    assert forall|k: int| 0 <= k < n implies #[trigger] t[b + k] == jbk_of(c[k], parent, child_start(c, b, k)) by {
        assert(t[b + k] == t.subrange(b, b + tree_size(c))[k]);
        assert(f[k] == blk[k]);
    }
    assert(range_sorted(t, b, n)) by {
        assert forall|i: int, j: int| b <= i < j < b + n implies lex_lt(#[trigger] t[i].name, #[trigger] t[j].name) by {
            assert(t[b + (i - b)] == jbk_of(c[i - b], parent, child_start(c, b, i - b)));
            assert(t[b + (j - b)] == jbk_of(c[j - b], parent, child_start(c, b, j - b)));
            assert(lex_lt(c[i - b].name, c[j - b].name));
        }
    }
    assert forall|i: int|
        b <= i < b + n implies (#[trigger] t[i]).parent == parent && match t[i].kind {
            JbkKindView::Dir { first_child, nb_children } => nb_children == 0 || (d > 0 && placed(
                t,
                first_child as int,
                nb_children as int,
                Some(i as u32),
                (d - 1) as nat,
            )),
            _ => true,
        } by {
        let k = i - b;
        assert(t[b + k] == jbk_of(c[k], parent, child_start(c, b, k)));
        if let NodeView::Dir(cc) = c[k].node {
            let start = child_start(c, b, k);
            lemma_inner_total_step(c, k);
            lemma_inner_total_mono(c, k + 1, n);
            lemma_inner_total_take_all(c);
            assert(start + tree_size(cc) <= b + tree_size(c));
            assert(tree_size(cc) + 1 <= tree_size(c));
            crate::flat::lemma_inner_total(cc);
            lemma_flat_len(cc, start, Some((b + k) as u32));
            lemma_tree_wf_child(c, k);
            if cc.len() > 0 {
                lemma_subs_piece(c, b, n, k);
                let it = inner_total(c.take(k)) as int;
                assert(t.subrange(start, start + tree_size(cc)) =~= flat_spec(cc, start, Some((b + k) as u32))) by {
                    assert forall|j: int| 0 <= j < tree_size(cc) implies #[trigger] t.subrange(start, start + tree_size(cc))[j]
                        == flat_spec(cc, start, Some((b + k) as u32))[j] by {
                        assert(t[start + j] == t.subrange(b, b + tree_size(c))[n + it + j]);
                        assert(f[n + it + j] == subs_upto(c, b, n)[it + j]);
                        assert(subs_upto(c, b, n)[it + j] == subs_upto(c, b, n).subrange(it, (it + inner_size(c[k])) as int)[j]);
                    }
                }
                lemma_flat_placed(t, cc, start, Some((b + k) as u32), (d - 1) as nat);
                assert(start as u32 as int == start);
            }
        }
    }
}

/// The laid-out form of a well-formed tree is placed from its root: the
/// root's entries come first, sorted by name and without parent, and every
/// directory's children sit together at its first child, sorted by name,
/// naming it as their parent.
pub proof fn law_flat_placement(c: Seq<EntryView>)
    requires
        tree_wf(c),
        tree_size(c) <= u32::MAX,
    ensures
        flat_spec(c, 0, None).len() == tree_size(c),
        placed(flat_spec(c, 0, None), 0, c.len() as int, None, tree_size(c)),
{
    let t = flat_spec(c, 0, None);
    lemma_flat_len(c, 0, None);
    assert(t.subrange(0, tree_size(c) as int) =~= t);
    lemma_flat_placed(t, c, 0, None, tree_size(c));
}

/// `t` holds, from `b`, the laid-out form of `c` with parent `parent`.
pub open spec fn flat_at(t: Seq<JbkEntryView>, c: Seq<EntryView>, b: int, parent: Option<u32>) -> bool {
    &&& tree_wf(c)
    &&& 0 <= b
    &&& b + tree_size(c) <= t.len()
    &&& t.len() <= u32::MAX
    &&& t.subrange(b, b + tree_size(c)) == flat_spec(c, b, parent)
}

/// The entries of a forest laid out from `b` sit at `b`, in order, sorted.
pub proof fn lemma_flat_block(t: Seq<JbkEntryView>, c: Seq<EntryView>, b: int, parent: Option<u32>)
    requires
        flat_at(t, c, b, parent),
    ensures
        c.len() <= tree_size(c),
        in_bounds(t, b, c.len() as int),
        range_sorted(t, b, c.len() as int),
        forall|k: int| 0 <= k < c.len() ==> #[trigger] t[b + k] == jbk_of(c[k], parent, child_start(c, b, k)),
{
    let n = c.len() as int;
    let f = flat_spec(c, b, parent);
    let blk = block(c, b, parent);
    lemma_flat_len(c, b, parent);
    crate::flat::lemma_inner_total(c);
    assert(f == blk + subs_upto(c, b, n));
    assert forall|k: int| 0 <= k < n implies #[trigger] t[b + k] == jbk_of(c[k], parent, child_start(c, b, k)) by {
        assert(t[b + k] == t.subrange(b, b + tree_size(c))[k]);
        assert(f[k] == blk[k]);
    }
    assert(range_sorted(t, b, n)) by {
        assert forall|i: int, j: int| b <= i < j < b + n implies lex_lt(#[trigger] t[i].name, #[trigger] t[j].name) by {
            assert(t[b + (i - b)] == jbk_of(c[i - b], parent, child_start(c, b, i - b)));
            assert(t[b + (j - b)] == jbk_of(c[j - b], parent, child_start(c, b, j - b)));
            assert(lex_lt(c[i - b].name, c[j - b].name));
        }
    }
}

/// The children of the directory `c[k]` of a forest laid out from `b` are
/// laid out at its first child, past the block of `c`.
pub proof fn lemma_flat_child(t: Seq<JbkEntryView>, c: Seq<EntryView>, b: int, parent: Option<u32>, k: int, cc: Seq<EntryView>)
    requires
        flat_at(t, c, b, parent),
        0 <= k < c.len(),
        c[k].node == NodeView::Dir(cc),
    ensures
        b + c.len() <= child_start(c, b, k),
        child_start(c, b, k) + tree_size(cc) <= b + tree_size(c),
        tree_size(cc) == inner_size(c[k]),
        tree_size(cc) < tree_size(c),
        cc.len() > 0 ==> flat_at(t, cc, child_start(c, b, k), Some((b + k) as u32)),
{
    let n = c.len() as int;
    let f = flat_spec(c, b, parent);
    let start = child_start(c, b, k);
    lemma_flat_len(c, b, parent);
    crate::flat::lemma_inner_total(c);
    assert(f == block(c, b, parent) + subs_upto(c, b, n));
    lemma_inner_total_step(c, k);
    lemma_inner_total_mono(c, k + 1, n);
    lemma_inner_total_take_all(c);
    lemma_inner_total_mono(c, 0, k);
    assert(c.take(0) =~= Seq::<EntryView>::empty());
    crate::flat::lemma_inner_total(cc);
    lemma_flat_len(cc, start, Some((b + k) as u32));
    lemma_tree_wf_child(c, k);
    if cc.len() > 0 {
        lemma_subs_piece(c, b, n, k);
        let it = inner_total(c.take(k)) as int;
        assert(t.subrange(start, start + tree_size(cc)) =~= flat_spec(cc, start, Some((b + k) as u32))) by {
            assert forall|j: int| 0 <= j < tree_size(cc) implies #[trigger] t.subrange(start, start + tree_size(cc))[j]
                == flat_spec(cc, start, Some((b + k) as u32))[j] by {
                assert(t[start + j] == t.subrange(b, b + tree_size(c))[n + it + j]);
                assert(f[n + it + j] == subs_upto(c, b, n)[it + j]);
                assert(subs_upto(c, b, n)[it + j] == subs_upto(c, b, n).subrange(it, (it + inner_size(c[k])) as int)[j]);
            }
        }
    }
}

/// One step of a lookup in a forest laid out from `b`: the first name of a
/// path that the forest holds is found at its index in the block, and the
/// rest of the path is followed from that directory's first child.
proof fn lemma_found_step(t: Seq<JbkEntryView>, c: Seq<EntryView>, b: int, parent: Option<u32>, p: Seq<Seq<u8>>)
    requires
        flat_at(t, c, b, parent),
        tree_lookup(c, p) is Some,
    ensures
        p.len() > 0,
        0 <= index_of_name(c, p[0]) < c.len(),
        p.len() == 1 ==> table_lookup(t, b, c.len() as int, p) == TableLookup::Found(b + index_of_name(c, p[0])),
        p.len() > 1 ==> (c[index_of_name(c, p[0])].node matches NodeView::Dir(cc) && cc.len() > 0
            && tree_lookup(cc, p.drop_first()) is Some
            && table_lookup(t, b, c.len() as int, p) == table_lookup(
                t,
                child_start(c, b, index_of_name(c, p[0])),
                cc.len() as int,
                p.drop_first(),
            )),
{
    let n = c.len() as int;
    lemma_flat_block(t, c, b, parent);
    lemma_index_of_name(c, p[0]);
    let k = index_of_name(c, p[0]);
    assert(t[b + k] == jbk_of(c[k], parent, child_start(c, b, k)));
    lemma_find_in_sorted(t, b, n, p[0], b + k);
    if p.len() > 1 {
        if let NodeView::Dir(cc) = c[k].node {
            let rest = p.drop_first();
            if cc.len() == 0 {
                lemma_index_of_name(cc, rest[0]);
                assert(false);
            }
            lemma_flat_child(t, c, b, parent, k, cc);
            crate::flat::lemma_inner_total(cc);
            let start = child_start(c, b, k);
            assert(start as u32 as int == start);
            assert(cc.len() as u32 as int == cc.len());
            assert(t[b + k].kind == JbkKindView::Dir { first_child: start as u32, nb_children: cc.len() as u32 });
            assert(in_bounds(t, b, n));
            assert(table_lookup(t, b, n, p) == table_lookup(t, start, cc.len() as int, rest));
        }
    }
}

/// The entry found for a path that a forest laid out from `b` holds lies in
/// the forest's part of the store: in its block for a single name, else in
/// the part of the directory that the first name picks.
proof fn lemma_found_in_range(t: Seq<JbkEntryView>, c: Seq<EntryView>, b: int, parent: Option<u32>, p: Seq<Seq<u8>>)
    requires
        flat_at(t, c, b, parent),
        tree_lookup(c, p) is Some,
    ensures
        table_lookup(t, b, c.len() as int, p) matches TableLookup::Found(i) && b <= i < b + tree_size(c)
            && (p.len() == 1 ==> i == b + index_of_name(c, p[0]))
            && (p.len() > 1 ==> child_start(c, b, index_of_name(c, p[0])) <= i < child_start(
                c,
                b,
                index_of_name(c, p[0]),
            ) + inner_size(c[index_of_name(c, p[0])])),
    decreases p.len(),
{
    lemma_found_step(t, c, b, parent, p);
    lemma_flat_block(t, c, b, parent);
    let k = index_of_name(c, p[0]);
    crate::flat::lemma_inner_total(c);
    lemma_inner_total_step(c, k);
    lemma_inner_total_mono(c, k + 1, c.len() as int);
    lemma_inner_total_take_all(c);
    if p.len() > 1 {
        if let NodeView::Dir(cc) = c[k].node {
            lemma_flat_child(t, c, b, parent, k, cc);
            lemma_found_in_range(t, cc, child_start(c, b, k), Some((b + k) as u32), p.drop_first());
        }
    }
}

/// The parts of the store that hold what is below two different entries of
/// a forest do not overlap.
proof fn lemma_child_parts_apart(c: Seq<EntryView>, b: int, j: int, k: int)
    requires
        0 <= j < k < c.len(),
    ensures
        child_start(c, b, j) + inner_size(c[j]) <= child_start(c, b, k),
{
    lemma_inner_total_step(c, j);
    lemma_inner_total_mono(c, j + 1, k);
}

/// Two paths that a forest laid out from `b` holds and that lead to the
/// same stored entry are the same path.
proof fn lemma_found_unique(
    t: Seq<JbkEntryView>,
    c: Seq<EntryView>,
    b: int,
    parent: Option<u32>,
    p: Seq<Seq<u8>>,
    q: Seq<Seq<u8>>,
)
    requires
        flat_at(t, c, b, parent),
        tree_lookup(c, p) is Some,
        tree_lookup(c, q) is Some,
        table_lookup(t, b, c.len() as int, p) == table_lookup(t, b, c.len() as int, q),
    ensures
        p == q,
    decreases p.len(),
{
    lemma_found_step(t, c, b, parent, p);
    lemma_found_step(t, c, b, parent, q);
    lemma_found_in_range(t, c, b, parent, p);
    lemma_found_in_range(t, c, b, parent, q);
    lemma_flat_block(t, c, b, parent);
    let kp = index_of_name(c, p[0]);
    let kq = index_of_name(c, q[0]);
    lemma_index_of_name(c, p[0]);
    lemma_index_of_name(c, q[0]);
    if p.len() > 1 {
        if let NodeView::Dir(cc) = c[kp].node {
            lemma_flat_child(t, c, b, parent, kp, cc);
        }
    }
    if q.len() > 1 {
        if let NodeView::Dir(cc) = c[kq].node {
            lemma_flat_child(t, c, b, parent, kq, cc);
        }
    }
    if kp < kq && p.len() > 1 && q.len() > 1 {
        lemma_child_parts_apart(c, b, kp, kq);
    }
    if kq < kp && p.len() > 1 && q.len() > 1 {
        lemma_child_parts_apart(c, b, kq, kp);
    }
    assert(kp == kq);
    assert(p[0] == q[0]);
    if p.len() == 1 {
        assert(p =~= q);
    } else {
        if let NodeView::Dir(cc) = c[kp].node {
            lemma_found_unique(t, cc, child_start(c, b, kp), Some((b + kp) as u32), p.drop_first(), q.drop_first());
            assert(p =~= seq![p[0]] + p.drop_first());
            assert(q =~= seq![q[0]] + q.drop_first());
        }
    }
}

/// Where an offset into what lies below the entries of a forest falls: below
/// the `k`-th entry.
proof fn lemma_part_of(c: Seq<EntryView>, o: int, m: int) -> (k: int)
    requires
        0 <= m <= c.len(),
        0 <= o < inner_total(c.take(m)),
    ensures
        0 <= k < m,
        inner_total(c.take(k)) <= o < inner_total(c.take(k)) + inner_size(c[k]),
    decreases m,
{
    if m == 0 {
        assert(c.take(0) =~= Seq::<EntryView>::empty());
        assert(false);
        0
    } else {
        lemma_inner_total_step(c, m - 1);
        if o >= inner_total(c.take(m - 1)) {
            m - 1
        } else {
            lemma_part_of(c, o, m - 1)
        }
    }
}

/// Each entry of the part of the store that a forest laid out from `b`
/// fills is found by a path that the forest holds.
proof fn lemma_path_to(t: Seq<JbkEntryView>, c: Seq<EntryView>, b: int, parent: Option<u32>, i: int) -> (p: Seq<Seq<u8>>)
    requires
        flat_at(t, c, b, parent),
        b <= i < b + tree_size(c),
    ensures
        tree_lookup(c, p) is Some,
        table_lookup(t, b, c.len() as int, p) == TableLookup::Found(i),
    decreases tree_size(c),
{
    let n = c.len() as int;
    lemma_flat_block(t, c, b, parent);
    crate::flat::lemma_inner_total(c);
    if i < b + n {
        let k = i - b;
        let p = seq![c[k].name];
        lemma_index_of_name_sorted(c, c[k].name, k);
        lemma_found_step(t, c, b, parent, p);
        p
    } else {
        lemma_inner_total_take_all(c);
        let k = lemma_part_of(c, i - b - n, n);
        assert(inner_size(c[k]) > 0);
        if let NodeView::Dir(cc) = c[k].node {
            lemma_flat_child(t, c, b, parent, k, cc);
            assert(cc.len() > 0);
            let q = lemma_path_to(t, cc, child_start(c, b, k), Some((b + k) as u32), i);
            lemma_index_of_name(cc, q[0]);
            let p = seq![c[k].name] + q;
            assert(p[0] == c[k].name);
            assert(p.drop_first() =~= q);
            lemma_index_of_name_sorted(c, c[k].name, k);
            lemma_found_step(t, c, b, parent, p);
            p
        } else {
            assert(false);
            seq![]
        }
    }
}

/// The `i`-th entry of the laid-out form of `c` is where the lookup of a
/// path that `c` holds leads, and it is the stored form of the entry at
/// that path.
pub open spec fn reached_by_a_path(c: Seq<EntryView>, i: int) -> bool {
    exists|p: Seq<Seq<u8>>|
        #![trigger tree_lookup(c, p)]
        tree_lookup(c, p) is Some && table_lookup(flat_spec(c, 0, None), 0, c.len() as int, p)
            == TableLookup::Found(i) && stored_as(flat_spec(c, 0, None)[i], tree_lookup(c, p).unwrap())
}

/// The laid-out form of a well-formed tree holds each entry of the tree
/// exactly once: the lookup of every path that the tree holds leads to a
/// stored entry, every stored entry is where the lookup of such a path
/// leads, and no two such paths lead to the same stored entry.
pub proof fn law_flat_holds_each_node_once(c: Seq<EntryView>)
    requires
        tree_wf(c),
        tree_size(c) <= u32::MAX,
    ensures
        flat_spec(c, 0, None).len() == tree_size(c),
        forall|p: Seq<Seq<u8>>|
            #[trigger] tree_lookup(c, p) is Some ==> (table_lookup(flat_spec(c, 0, None), 0, c.len() as int, p)
                matches TableLookup::Found(i) && 0 <= i < tree_size(c)),
        forall|i: int| 0 <= i < tree_size(c) ==> #[trigger] reached_by_a_path(c, i),
        forall|p: Seq<Seq<u8>>, q: Seq<Seq<u8>>|
            #![trigger table_lookup(flat_spec(c, 0, None), 0, c.len() as int, p), table_lookup(flat_spec(c, 0, None), 0, c.len() as int, q)]
            tree_lookup(c, p) is Some && tree_lookup(c, q) is Some && table_lookup(
                flat_spec(c, 0, None),
                0,
                c.len() as int,
                p,
            ) == table_lookup(flat_spec(c, 0, None), 0, c.len() as int, q) ==> p == q,
{
    let t = flat_spec(c, 0, None);
    lemma_flat_len(c, 0, None);
    assert(t.subrange(0, tree_size(c) as int) =~= t);
    assert(flat_at(t, c, 0, None));
    assert forall|p: Seq<Seq<u8>>| #[trigger] tree_lookup(c, p) is Some implies (table_lookup(t, 0, c.len() as int, p)
        matches TableLookup::Found(i) && 0 <= i < tree_size(c)) by {
        lemma_found_in_range(t, c, 0, None, p);
    }
    assert forall|i: int| 0 <= i < tree_size(c) implies #[trigger] reached_by_a_path(c, i) by {
        let p = lemma_path_to(t, c, 0, None, i);
        lemma_flat_then_lookup(c, p);
        assert(tree_lookup(c, p) is Some && table_lookup(t, 0, c.len() as int, p) == TableLookup::Found(i)
            && stored_as(t[i], tree_lookup(c, p).unwrap()));
    }
    assert forall|p: Seq<Seq<u8>>, q: Seq<Seq<u8>>|
        #![trigger table_lookup(t, 0, c.len() as int, p), table_lookup(t, 0, c.len() as int, q)]
        tree_lookup(c, p) is Some && tree_lookup(c, q) is Some && table_lookup(t, 0, c.len() as int, p)
            == table_lookup(t, 0, c.len() as int, q) implies p == q by {
        lemma_found_unique(t, c, 0, None, p, q);
    }
}

} // verus!
