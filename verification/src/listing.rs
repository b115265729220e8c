//! Listing the entries of an archive, one path per line.
use vstd::prelude::*;
use crate::arx::{is_format_error, walkable, Arx};
use crate::error::{ArxFormatError, BaseError, QueryError};
use crate::flat::{view_jbk, JbkEntry, JbkEntryView, JbkKind, JbkKindView};
use crate::flat::{child_start, jbk_of, lemma_inner_total};
use crate::table::{flat_at, in_bounds, lemma_flat_block, lemma_flat_child};
use crate::tree::{index_of_name, lemma_index_of_name, tree_lookup, tree_size, EntryView, NodeView};
use crate::ui::{decimal, from_utf8_lossy, utf8_lossy};

verus! {

/// The parts of a path joined with `/`.
pub open spec fn join(parts: Seq<Seq<u8>>) -> Seq<u8>
    decreases parts.len(),
{
    if parts.len() == 0 {
        Seq::empty()
    } else if parts.len() == 1 {
        parts[0]
    } else {
        join(parts.drop_last()) + seq![47u8] + parts.last()
    }
}

/// The line printed for `component` under the path made of `parts`.
pub open spec fn line_spec(parts: Seq<Seq<u8>>, component: Seq<u8>) -> Seq<u8> {
    if parts.len() == 0 {
        component + seq![10u8]
    } else if component.len() == 0 {
        join(parts) + seq![10u8]
    } else {
        join(parts) + seq![47u8] + component + seq![10u8]
    }
}

/// A path inside the archive, as the parts of its directories.
pub struct LightPath(pub Vec<Vec<u8>>);

/// The parts of a path, as bytes.
pub open spec fn parts_view(p: Seq<Vec<u8>>) -> Seq<Seq<u8>> {
    p.map_values(|v: Vec<u8>| v@)
}

/// Appends the bytes of `b` to `out`.
fn push_bytes(out: &mut Vec<u8>, b: &[u8])
    ensures
        final(out)@ == old(out)@ + b@,
{
    let mut i: usize = 0;
    while i < b.len()
        invariant
            i <= b@.len(),
            out@ == old(out)@ + b@.subrange(0, i as int),
        decreases b@.len() - i,
    {
        out.push(b[i]);
        proof {
            assert(b@.subrange(0, i + 1) =~= b@.subrange(0, i as int).push(b@[i as int]));
        }
        i = i + 1;
    }
    proof {
        assert(b@.subrange(0, b@.len() as int) =~= b@);
    }
}

impl LightPath {
    /// The empty path.
    pub fn new() -> (r: Self)
        ensures
            r.0@.len() == 0,
    {
        LightPath(Vec::new())
    }

    /// Goes down into `component`.
    pub fn push(&mut self, component: Vec<u8>)
        ensures
            parts_view(final(self).0@) == parts_view(old(self).0@).push(component@),
    {
        self.0.push(component);
        proof {
            assert(parts_view(self.0@) =~= parts_view(old(self).0@).push(component@));
        }
    }

    /// Goes up one directory, if any.
    pub fn pop(&mut self)
        ensures
            old(self).0@.len() == 0 ==> final(self).0@.len() == 0,
            old(self).0@.len() > 0 ==> parts_view(final(self).0@) == parts_view(old(self).0@).drop_last(),
    {
        if self.0.len() > 0 {
            self.0.pop();
            proof {
                assert(parts_view(self.0@) =~= parts_view(old(self).0@).drop_last());
            }
        }
    }

    /// Appends the path joined with `/` to `out`.
    fn push_joined(&self, out: &mut Vec<u8>)
        ensures
            final(out)@ == old(out)@ + join(parts_view(self.0@)),
    {
        let mut i: usize = 0;
        while i < self.0.len()
            invariant
                i <= self.0@.len(),
                out@ == old(out)@ + join(parts_view(self.0@.subrange(0, i as int))),
            decreases self.0@.len() - i,
        {
            proof {
                let pv = parts_view(self.0@.subrange(0, i + 1));
                assert(pv.drop_last() =~= parts_view(self.0@.subrange(0, i as int)));
                assert(pv.last() == self.0@[i as int]@);
            }
            if i > 0 {
                out.push(47u8);
            }
            push_bytes(out, self.0[i].as_slice());
            proof {
                let pv = parts_view(self.0@.subrange(0, i + 1));
                if i == 0 {
                    assert(parts_view(self.0@.subrange(0, 0)) =~= Seq::empty());
                    assert(join(pv) == pv[0]);
                }
            }
            i = i + 1;
        }
        proof {
            assert(self.0@.subrange(0, self.0@.len() as int) =~= self.0@);
        }
    }

    /// Appends the line for `component` under this path to `out`: the parts
    /// and the component joined with `/`, then a new line.
    pub fn println2(&self, component: &[u8], out: &mut Vec<u8>)
        ensures
            final(out)@ == old(out)@ + line_spec(parts_view(self.0@), component@),
    {
        if self.0.len() > 0 {
            self.push_joined(out);
            if component.len() > 0 {
                out.push(47u8);
            }
        }
        push_bytes(out, component);
        out.push(10u8);
        proof {
            assert(final(out)@ =~= old(out)@ + line_spec(parts_view(self.0@), component@));
        }
    }

    /// Appends the line for this path to `out`.
    pub fn println(&self, out: &mut Vec<u8>)
        ensures
            final(out)@ == old(out)@ + line_spec(parts_view(self.0@), Seq::empty()),
    {
        let empty: Vec<u8> = Vec::new();
        self.println2(empty.as_slice(), out);
    }
}


/// The lines listing the entries `k` to `count` of the range from `first`,
/// under the directories `parts`: a file or a link is a line, a directory is
/// a line followed by the lines of its children, at most `depth` levels
/// further down. `None` where a range is out of the store or the
/// directories go deeper than `depth`.
pub open spec fn plain_lines(t: Seq<JbkEntryView>, first: nat, count: nat, k: nat, parts: Seq<Seq<u8>>, depth: nat) -> Option<Seq<u8>>
    decreases depth, count - k,
{
    if k >= count {
        Some(Seq::empty())
    } else {
        let e = t[(first + k) as int];
        let here = match e.kind {
            JbkKindView::Dir { first_child, nb_children } => {
                let sub = parts.push(e.name);
                if depth == 0 || !in_bounds(t, first_child as int, nb_children as int) {
                    None
                } else {
                    match plain_lines(t, first_child as nat, nb_children as nat, 0, sub, (depth - 1) as nat) {
                        Some(inner) => Some(line_spec(sub, Seq::empty()) + inner),
                        None => None,
                    }
                }
            },
            _ => Some(line_spec(parts, e.name)),
        };
        match here {
            Some(h) => match plain_lines(t, first, count, k + 1, parts, depth) {
                Some(rest) => Some(h + rest),
                None => None,
            },
            None => None,
        }
    }
}

/// `acc` in front of what `r` holds, if it holds anything.
pub open spec fn after<T>(acc: Seq<T>, r: Option<Seq<T>>) -> Option<Seq<T>> {
    match r {
        Some(x) => Some(acc + x),
        None => None,
    }
}

proof fn lemma_after_after<T>(a: Seq<T>, b: Seq<T>, r: Option<Seq<T>>)
    ensures
        after(a, after(b, r)) == after(a + b, r),
{
    if let Some(x) = r {
        assert(a + (b + x) =~= (a + b) + x);
    }
}

/// Lists the range of `count` entries from `first`, under `path`, into `out`.
fn plain_range(t: &Vec<JbkEntry>, first: u32, count: u32, path: &mut LightPath, out: &mut Vec<u8>, depth: usize) -> (ok: bool)
    requires
        in_bounds(view_jbk(t@), first as int, count as int),
    ensures
        parts_view(final(path).0@) == parts_view(old(path).0@),
        match plain_lines(view_jbk(t@), first as nat, count as nat, 0, parts_view(old(path).0@), depth as nat) {
            Some(lines) => ok && final(out)@ == old(out)@ + lines,
            None => !ok,
        },
    decreases depth, count,
{
    let ghost tv = view_jbk(t@);
    let ghost parts = parts_view(path.0@);
    let ghost start = out@;
    let mut k: u32 = 0;
    while k < count
        invariant
            tv == view_jbk(t@),
            parts == parts_view(old(path).0@),
            start == old(out)@,
            in_bounds(tv, first as int, count as int),
            k <= count,
            parts_view(path.0@) == parts,
            start.len() <= out@.len(),
            out@.subrange(0, start.len() as int) == start,
            plain_lines(tv, first as nat, count as nat, 0, parts, depth as nat) == after(
                out@.subrange(start.len() as int, out@.len() as int),
                plain_lines(tv, first as nat, count as nat, k as nat, parts, depth as nat),
            ),
        decreases count - k,
    {
        let idx = first + k;
        let e = &t[idx as usize];
        proof {
            assert(tv[idx as int] == e@);
        }
        let ghost before = out@;
        let ghost acc = before.subrange(start.len() as int, before.len() as int);
        match &e.kind {
            JbkKind::Dir { first_child, nb_children } => {
                path.push(crate::bytes::copy_bytes(e.name.as_slice()));
                path.println(out);
                let ghost sub = parts.push(e.name@);
                if depth == 0 {
                    path.pop();
                    proof {
                        assert(parts_view(path.0@) =~= parts);
                        assert(plain_lines(tv, first as nat, count as nat, k as nat, parts, depth as nat) is None);
                    }
                    return false;
                }
                if *first_child as u64 + *nb_children as u64 > t.len() as u64
                    || *first_child as u64 + *nb_children as u64 > 0xffff_ffffu64 {
                    path.pop();
                    proof {
                        assert(!in_bounds(tv, *first_child as int, *nb_children as int));
                        assert(plain_lines(tv, first as nat, count as nat, k as nat, parts, depth as nat) is None);
                    }
                    return false;
                }
                let ghost mid = out@;
                let inner = plain_range(t, *first_child, *nb_children, path, out, depth - 1);
                path.pop();
                proof {
                    assert(parts_view(path.0@) =~= parts);
                }
                if !inner {
                    proof {
                        assert(plain_lines(tv, first as nat, count as nat, k as nat, parts, depth as nat) is None);
                    }
                    return false;
                }
                proof {
                    let h = out@.subrange(before.len() as int, out@.len() as int);
                    let inner_lines = out@.subrange(mid.len() as int, out@.len() as int);
                    assert(mid =~= before + line_spec(sub, Seq::empty()));
                    assert(out@ =~= mid + inner_lines);
                    assert(h =~= line_spec(sub, Seq::empty()) + inner_lines);
                    assert(plain_lines(tv, first as nat, count as nat, k as nat, parts, depth as nat) == after(
                        h,
                        plain_lines(tv, first as nat, count as nat, (k + 1) as nat, parts, depth as nat),
                    ));
                }
            },
            _ => {
                path.println2(e.name.as_slice(), out);
                proof {
                    let h = out@.subrange(before.len() as int, out@.len() as int);
                    assert(h =~= line_spec(parts, e.name@));
                    assert(plain_lines(tv, first as nat, count as nat, k as nat, parts, depth as nat) == after(
                        h,
                        plain_lines(tv, first as nat, count as nat, (k + 1) as nat, parts, depth as nat),
                    ));
                }
            },
        }
        proof {
            let h = out@.subrange(before.len() as int, out@.len() as int);
            assert(out@ =~= before + h);
            assert(out@.subrange(start.len() as int, out@.len() as int) =~= acc + h);
            assert(out@.subrange(0, start.len() as int) =~= before.subrange(0, start.len() as int));
            lemma_after_after(acc, h, plain_lines(tv, first as nat, count as nat, (k + 1) as nat, parts, depth as nat));
        }
        k = k + 1;
    }
    proof {
        assert(plain_lines(tv, first as nat, count as nat, count as nat, parts, depth as nat) == Some(Seq::<u8>::empty()));
        assert(out@.subrange(start.len() as int, out@.len() as int) + Seq::<u8>::empty() =~= out@.subrange(start.len() as int, out@.len() as int));
        assert(out@ =~= start + out@.subrange(start.len() as int, out@.len() as int));
    }
    true
}

// ---------------------------------------------------------------------------
// The stable listing, for scripts.
// ---------------------------------------------------------------------------

/// The parts of a path joined with `/`, as text.
pub open spec fn join_text(parts: Seq<Seq<char>>) -> Seq<char>
    decreases parts.len(),
{
    if parts.len() == 0 {
        Seq::empty()
    } else if parts.len() == 1 {
        parts[0]
    } else {
        join_text(parts.drop_last()) + seq!['/'] + parts.last()
    }
}

/// The names of the directories walked.
pub open spec fn names_view(p: Seq<String>) -> Seq<Seq<char>> {
    p.map_values(|s: String| s@)
}

/// The line of a directory: `d`, its modification time and its path.
pub open spec fn dir_line(mtime: u64, path: Seq<Seq<char>>) -> Seq<char> {
    "d "@ + decimal(mtime as nat) + " "@ + join_text(path) + "\n"@
}

/// The line of a file: `f`, its modification time, its size and its path.
pub open spec fn file_line(mtime: u64, size: u64, path: Seq<Seq<char>>) -> Seq<char> {
    "f "@ + decimal(mtime as nat) + " "@ + decimal(size as nat) + " "@ + join_text(path) + "\n"@
}

/// The line of a link: `l`, its modification time, its path, `->` and its
/// target.
pub open spec fn link_line(mtime: u64, path: Seq<Seq<char>>, target: Seq<char>) -> Seq<char> {
    "l "@ + decimal(mtime as nat) + " "@ + join_text(path) + "->"@ + target + "\n"@
}

/// Appends the names joined with `/` to `out`.
pub(crate) fn push_joined_text(names: &Vec<String>, out: &mut String)
    ensures
        final(out)@ == old(out)@ + join_text(names_view(names@)),
{
    let mut i: usize = 0;
    while i < names.len()
        invariant
            i <= names@.len(),
            out@ == old(out)@ + join_text(names_view(names@.subrange(0, i as int))),
        decreases names@.len() - i,
    {
        proof {
            let pv = names_view(names@.subrange(0, i + 1));
            assert(pv.drop_last() =~= names_view(names@.subrange(0, i as int)));
            assert(pv.last() == names@[i as int]@);
            reveal_strlit("/");
        }
        if i > 0 {
            out.append("/");
        }
        out.append(names[i].as_str());
        proof {
            let pv = names_view(names@.subrange(0, i + 1));
            if i == 0 {
                assert(names_view(names@.subrange(0, 0)) =~= Seq::empty());
                assert(join_text(pv) == pv[0]);
            }
        }
        i = i + 1;
    }
    proof {
        assert(names@.subrange(0, names@.len() as int) =~= names@);
    }
}

/// Appends the decimal digits of `n` to `out`.
fn push_number(out: &mut String, n: u64)
    ensures
        final(out)@ == old(out)@ + decimal(n as nat),
{
    crate::ui::push_decimal(out, n as u128);
}

/// The stable lines listing the entries `k` to `count` of the range from
/// `first`, under the directories named `names`: a directory is its line
/// followed by the lines of its children, at most `depth` levels further
/// down; a file or a link is its line. `None` where a range is out of the
/// store or the directories go deeper than `depth`.
pub open spec fn stable_lines(t: Seq<JbkEntryView>, first: nat, count: nat, k: nat, names: Seq<Seq<char>>, depth: nat) -> Option<Seq<char>>
    decreases depth, count - k,
{
    if k >= count {
        Some(Seq::empty())
    } else {
        let e = t[(first + k) as int];
        let path = names.push(utf8_lossy(e.name));
        let here = match e.kind {
            JbkKindView::Dir { first_child, nb_children } => {
                if depth == 0 || !in_bounds(t, first_child as int, nb_children as int) {
                    None
                } else {
                    match stable_lines(t, first_child as nat, nb_children as nat, 0, path, (depth - 1) as nat) {
                        Some(inner) => Some(dir_line(e.mtime, path) + inner),
                        None => None,
                    }
                }
            },
            JbkKindView::File { size, .. } => Some(file_line(e.mtime, size, path)),
            JbkKindView::Link { target } => Some(link_line(e.mtime, path, utf8_lossy(target))),
        };
        match here {
            Some(h) => after(h, stable_lines(t, first, count, k + 1, names, depth)),
            None => None,
        }
    }
}

/// Appends the line of a directory to `out`.
fn push_dir_line(out: &mut String, mtime: u64, names: &Vec<String>)
    ensures
        final(out)@ == old(out)@ + dir_line(mtime, names_view(names@)),
{
    proof {
        reveal_strlit("d ");
        reveal_strlit(" ");
        reveal_strlit("\n");
    }
    out.append("d ");
    push_number(out, mtime);
    out.append(" ");
    push_joined_text(names, out);
    out.append("\n");
    proof {
        assert(final(out)@ =~= old(out)@ + dir_line(mtime, names_view(names@)));
    }
}

/// Appends the line of a file to `out`.
fn push_file_line(out: &mut String, mtime: u64, size: u64, names: &Vec<String>)
    ensures
        final(out)@ == old(out)@ + file_line(mtime, size, names_view(names@)),
{
    proof {
        reveal_strlit("f ");
        reveal_strlit(" ");
        reveal_strlit("\n");
    }
    out.append("f ");
    push_number(out, mtime);
    out.append(" ");
    push_number(out, size);
    out.append(" ");
    push_joined_text(names, out);
    out.append("\n");
    proof {
        assert(final(out)@ =~= old(out)@ + file_line(mtime, size, names_view(names@)));
    }
}

/// Appends the line of a link to `out`.
fn push_link_line(out: &mut String, mtime: u64, names: &Vec<String>, target: &String)
    ensures
        final(out)@ == old(out)@ + link_line(mtime, names_view(names@), target@),
{
    proof {
        reveal_strlit("l ");
        reveal_strlit(" ");
        reveal_strlit("->");
        reveal_strlit("\n");
    }
    out.append("l ");
    push_number(out, mtime);
    out.append(" ");
    push_joined_text(names, out);
    out.append("->");
    out.append(target.as_str());
    out.append("\n");
    proof {
        assert(final(out)@ =~= old(out)@ + link_line(mtime, names_view(names@), target@));
    }
}

/// Lists the range of `count` entries from `first`, under the directories
/// `names`, into `out` in the stable form.
fn stable_range(t: &Vec<JbkEntry>, first: u32, count: u32, names: &mut Vec<String>, out: &mut String, depth: usize) -> (ok: bool)
    requires
        in_bounds(view_jbk(t@), first as int, count as int),
    ensures
        names_view(final(names)@) == names_view(old(names)@),
        match stable_lines(view_jbk(t@), first as nat, count as nat, 0, names_view(old(names)@), depth as nat) {
            Some(lines) => ok && final(out)@ == old(out)@ + lines,
            None => !ok,
        },
    decreases depth, count,
{
    let ghost tv = view_jbk(t@);
    let ghost parts = names_view(names@);
    let ghost start = out@;
    let mut k: u32 = 0;
    while k < count
        invariant
            tv == view_jbk(t@),
            parts == names_view(old(names)@),
            start == old(out)@,
            in_bounds(tv, first as int, count as int),
            k <= count,
            names_view(names@) == parts,
            start.len() <= out@.len(),
            out@.subrange(0, start.len() as int) == start,
            stable_lines(tv, first as nat, count as nat, 0, parts, depth as nat) == after(
                out@.subrange(start.len() as int, out@.len() as int),
                stable_lines(tv, first as nat, count as nat, k as nat, parts, depth as nat),
            ),
        decreases count - k,
    {
        let idx = first + k;
        let e = &t[idx as usize];
        proof {
            assert(tv[idx as int] == e@);
        }
        let ghost before = out@;
        let ghost acc = before.subrange(start.len() as int, before.len() as int);
        names.push(from_utf8_lossy(e.name.as_slice()));
        let ghost path = parts.push(utf8_lossy(e.name@));
        proof {
            assert(names_view(names@) =~= path);
        }
        match &e.kind {
            JbkKind::Dir { first_child, nb_children } => {
                push_dir_line(out, e.mtime, names);
                if depth == 0 {
                    names.pop();
                    proof {
                        assert(names_view(names@) =~= parts);
                        assert(stable_lines(tv, first as nat, count as nat, k as nat, parts, depth as nat) is None);
                    }
                    return false;
                }
                if *first_child as u64 + *nb_children as u64 > t.len() as u64
                    || *first_child as u64 + *nb_children as u64 > 0xffff_ffffu64 {
                    names.pop();
                    proof {
                        assert(names_view(names@) =~= parts);
                        assert(!in_bounds(tv, *first_child as int, *nb_children as int));
                        assert(stable_lines(tv, first as nat, count as nat, k as nat, parts, depth as nat) is None);
                    }
                    return false;
                }
                let ghost mid = out@;
                let inner = stable_range(t, *first_child, *nb_children, names, out, depth - 1);
                let ghost deep = names@;
                names.pop();
                proof {
                    assert(names_view(deep) == path);
                    assert(names@ =~= deep.drop_last());
                    assert(names_view(names@) =~= names_view(deep).drop_last());
                    assert(names_view(names@) =~= parts);
                }
                if !inner {
                    proof {
                        assert(stable_lines(tv, first as nat, count as nat, k as nat, parts, depth as nat) is None);
                    }
                    return false;
                }
                proof {
                    let h = out@.subrange(before.len() as int, out@.len() as int);
                    let inner_lines = out@.subrange(mid.len() as int, out@.len() as int);
                    assert(mid =~= before + dir_line(e.mtime, path));
                    assert(out@ =~= mid + inner_lines);
                    assert(h =~= dir_line(e.mtime, path) + inner_lines);
                    assert(stable_lines(tv, first as nat, count as nat, k as nat, parts, depth as nat) == after(
                        h,
                        stable_lines(tv, first as nat, count as nat, (k + 1) as nat, parts, depth as nat),
                    ));
                }
            },
            JbkKind::File { size, .. } => {
                push_file_line(out, e.mtime, *size, names);
                names.pop();
                proof {
                    assert(names_view(names@) =~= parts);
                    let h = out@.subrange(before.len() as int, out@.len() as int);
                    assert(h =~= file_line(e.mtime, *size, path));
                    assert(stable_lines(tv, first as nat, count as nat, k as nat, parts, depth as nat) == after(
                        h,
                        stable_lines(tv, first as nat, count as nat, (k + 1) as nat, parts, depth as nat),
                    ));
                }
            },
            JbkKind::Link { target } => {
                let text = from_utf8_lossy(target.as_slice());
                push_link_line(out, e.mtime, names, &text);
                names.pop();
                proof {
                    assert(names_view(names@) =~= parts);
                    let h = out@.subrange(before.len() as int, out@.len() as int);
                    assert(h =~= link_line(e.mtime, path, utf8_lossy(target@)));
                    assert(stable_lines(tv, first as nat, count as nat, k as nat, parts, depth as nat) == after(
                        h,
                        stable_lines(tv, first as nat, count as nat, (k + 1) as nat, parts, depth as nat),
                    ));
                }
            },
        }
        proof {
            let h = out@.subrange(before.len() as int, out@.len() as int);
            assert(out@ =~= before + h);
            assert(out@.subrange(start.len() as int, out@.len() as int) =~= acc + h);
            assert(out@.subrange(0, start.len() as int) =~= before.subrange(0, start.len() as int));
            lemma_after_after(acc, h, stable_lines(tv, first as nat, count as nat, (k + 1) as nat, parts, depth as nat));
        }
        k = k + 1;
    }
    proof {
        assert(stable_lines(tv, first as nat, count as nat, count as nat, parts, depth as nat) == Some(Seq::<char>::empty()));
        assert(out@.subrange(start.len() as int, out@.len() as int) + Seq::<char>::empty() =~= out@.subrange(start.len() as int, out@.len() as int));
        assert(out@ =~= start + out@.subrange(start.len() as int, out@.len() as int));
    }
    true
}

/// What a listing prints.
pub enum ListOutput {
    /// One path per line.
    Plain(Vec<u8>),
    /// The stable form.
    Stable(String),
}

/// Why a listing stopped.
pub enum ListError {
    /// The archive could not be read.
    Arx(QueryError),
    /// This version of the stable form does not exist.
    UnsupportedStable(u8),
}

/// What the listing of `arx` is, or `None` where its tree cannot be walked:
/// a range out of the store, or directories nested deeper than the store has
/// entries (which only a cycle gives).
pub open spec fn listing_spec(arx: Arx, stable: bool) -> Option<ListOutputView> {
    let t = arx.table();
    let first = arx.root.first as int;
    let count = arx.root.count as int;
    if !in_bounds(t, first, count) {
        None
    } else if stable {
        match stable_lines(t, first as nat, count as nat, 0, Seq::empty(), t.len()) {
            Some(text) => Some(ListOutputView::Stable(text)),
            None => None,
        }
    } else {
        match plain_lines(t, first as nat, count as nat, 0, Seq::empty(), t.len()) {
            Some(bytes) => Some(ListOutputView::Plain(bytes)),
            None => None,
        }
    }
}

/// The model of what a listing prints.
pub enum ListOutputView {
    Plain(Seq<u8>),
    Stable(Seq<char>),
}

impl View for ListOutput {
    type V = ListOutputView;

    open spec fn view(&self) -> ListOutputView {
        match self {
            ListOutput::Plain(b) => ListOutputView::Plain(b@),
            ListOutput::Stable(s) => ListOutputView::Stable(s@),
        }
    }
}

/// Lists the entries of `arx`, depth first in index order: one path per
/// line, or with `stable_output` at version 1 the stable form that gives
/// each entry's kind, modification time, size or target. Any other version
/// of the stable form is refused; a tree that cannot be walked is a format
/// error.
pub fn list(arx: &Arx, stable_output: Option<u8>) -> (r: Result<ListOutput, ListError>)
    ensures
        match stable_output {
            Some(v) if v != 1 => r matches Err(ListError::UnsupportedStable(w)) && w == v,
            _ => match listing_spec(*arx, stable_output is Some) {
                Some(out) => r matches Ok(o) && o@ == out,
                None => r matches Err(ListError::Arx(e)) && is_format_error(e),
            },
        },
{
    let stable = match stable_output {
        Some(v) => {
            if v != 1 {
                return Err(ListError::UnsupportedStable(v));
            }
            true
        },
        None => false,
    };
    let first = arx.root.first;
    let count = arx.root.count;
    if first as u64 + count as u64 > arx.entries.len() as u64 || first as u64 + count as u64 > 0xffff_ffffu64 {
        return Err(ListError::Arx(QueryError::BaseError(BaseError::ArxFormatError(ArxFormatError("Root range out of the entry store")))));
    }
    let depth = arx.entries.len();
    if stable {
        let mut names: Vec<String> = Vec::new();
        let mut out = String::new();
        proof {
            assert(names_view(names@) =~= Seq::<Seq<char>>::empty());
            assert(out@ =~= Seq::<char>::empty());
        }
        if stable_range(&arx.entries, first, count, &mut names, &mut out, depth) {
            Ok(ListOutput::Stable(out))
        } else {
            Err(ListError::Arx(QueryError::BaseError(BaseError::ArxFormatError(ArxFormatError("Directory tree cannot be walked")))))
        }
    } else {
        let mut path = LightPath::new();
        let mut out: Vec<u8> = Vec::new();
        proof {
            assert(parts_view(path.0@) =~= Seq::<Seq<u8>>::empty());
        }
        if plain_range(&arx.entries, first, count, &mut path, &mut out, depth) {
            Ok(ListOutput::Plain(out))
        } else {
            Err(ListError::Arx(QueryError::BaseError(BaseError::ArxFormatError(ArxFormatError("Directory tree cannot be walked")))))
        }
    }
}

/// The plain listing of a walkable range is never cut short.
pub proof fn lemma_walkable_plain(t: Seq<JbkEntryView>, first: nat, count: nat, k: nat, parts: Seq<Seq<u8>>, depth: nat)
    requires
        walkable(t, first as int, count as int, depth),
        k <= count,
    ensures
        plain_lines(t, first, count, k, parts, depth) is Some,
    decreases depth, count - k,
{
    if k < count {
        let i = (first + k) as int;
        let e = t[i];
        assert(first <= i < first + count);
        if let JbkKindView::Dir { first_child, nb_children } = e.kind {
            assert(depth > 0 && walkable(t, first_child as int, nb_children as int, (depth - 1) as nat));
            assert(in_bounds(t, first_child as int, nb_children as int));
            lemma_walkable_plain(t, first_child as nat, nb_children as nat, 0, parts.push(e.name), (depth - 1) as nat);
        }
        lemma_walkable_plain(t, first, count, k + 1, parts, depth);
        assert(plain_lines(t, first, count, k + 1, parts, depth) is Some);
    }
}

/// The stable listing of a walkable range is never cut short.
pub proof fn lemma_walkable_stable(t: Seq<JbkEntryView>, first: nat, count: nat, k: nat, names: Seq<Seq<char>>, depth: nat)
    requires
        walkable(t, first as int, count as int, depth),
        k <= count,
    ensures
        stable_lines(t, first, count, k, names, depth) is Some,
    decreases depth, count - k,
{
    if k < count {
        let i = (first + k) as int;
        let e = t[i];
        assert(first <= i < first + count);
        if let JbkKindView::Dir { first_child, nb_children } = e.kind {
            assert(depth > 0 && walkable(t, first_child as int, nb_children as int, (depth - 1) as nat));
            assert(in_bounds(t, first_child as int, nb_children as int));
            lemma_walkable_stable(
                t,
                first_child as nat,
                nb_children as nat,
                0,
                names.push(utf8_lossy(e.name)),
                (depth - 1) as nat,
            );
        }
        lemma_walkable_stable(t, first, count, k + 1, names, depth);
    }
}

/// The lines listing the entries `k` onwards of the forest `c` under the
/// directories `parts`, depth first in order: a file or a link is a line,
/// a directory is a line followed by the lines of its children.
pub open spec fn tree_lines(c: Seq<EntryView>, k: int, parts: Seq<Seq<u8>>) -> Seq<u8>
    decreases c, c.len() - k,
{
    if k < 0 || k >= c.len() {
        Seq::empty()
    } else {
        let e = c[k];
        let here = match e.node {
            NodeView::Dir(cc) => line_spec(parts.push(e.name), Seq::empty()) + tree_lines(cc, 0, parts.push(e.name)),
            _ => line_spec(parts, e.name),
        };
        here + tree_lines(c, k + 1, parts)
    }
}

/// The plain listing of a forest laid out from `b` lists the forest.
pub proof fn lemma_flat_plain_lines(
    t: Seq<JbkEntryView>,
    c: Seq<EntryView>,
    b: int,
    parent: Option<u32>,
    k: int,
    parts: Seq<Seq<u8>>,
    d: nat,
)
    requires
        flat_at(t, c, b, parent),
        tree_size(c) <= d,
        0 <= k <= c.len(),
    ensures
        plain_lines(t, b as nat, c.len() as nat, k as nat, parts, d) == Some(tree_lines(c, k, parts)),
    decreases tree_size(c), c.len() - k,
{
    if k < c.len() {
        lemma_flat_block(t, c, b, parent);
        assert(t[b + k] == jbk_of(c[k], parent, child_start(c, b, k)));
        assert((b as nat + k as nat) as int == b + k);
        if let NodeView::Dir(cc) = c[k].node {
            lemma_flat_child(t, c, b, parent, k, cc);
            lemma_inner_total(cc);
            let sub = parts.push(c[k].name);
            if cc.len() == 0 {
                assert(in_bounds(t, 0, 0));
                assert(plain_lines(t, 0, 0, 0, sub, (d - 1) as nat) == Some(Seq::<u8>::empty()));
                assert(line_spec(sub, Seq::empty()) + Seq::<u8>::empty() =~= line_spec(sub, Seq::empty()));
            } else {
                let start = child_start(c, b, k);
                assert(start as u32 as int == start);
                assert(cc.len() as u32 as int == cc.len());
                lemma_flat_block(t, cc, start, Some((b + k) as u32));
                lemma_flat_plain_lines(t, cc, start, Some((b + k) as u32), 0, sub, (d - 1) as nat);
                assert((start as u32) as nat == start as nat);
            }
        }
        lemma_flat_plain_lines(t, c, b, parent, k + 1, parts, d);
        let e = t[b + k];
        let here: Option<Seq<u8>> = match e.kind {
            JbkKindView::Dir { first_child, nb_children } => {
                let sub = parts.push(e.name);
                if d == 0 || !in_bounds(t, first_child as int, nb_children as int) {
                    None
                } else {
                    match plain_lines(t, first_child as nat, nb_children as nat, 0, sub, (d - 1) as nat) {
                        Some(inner) => Some(line_spec(sub, Seq::empty()) + inner),
                        None => None,
                    }
                }
            },
            _ => Some(line_spec(parts, e.name)),
        };
        let here2 = match c[k].node {
            NodeView::Dir(cc) => line_spec(parts.push(c[k].name), Seq::empty()) + tree_lines(cc, 0, parts.push(c[k].name)),
            _ => line_spec(parts, c[k].name),
        };
        assert(here == Some(here2));
        assert(tree_lines(c, k, parts) == here2 + tree_lines(c, k + 1, parts));
    }
}

/// The stable line of the entry `e` of a tree, whose path from the root is
/// `path`: its kind, its modification time, for a file its size, the names
/// along its path joined with `/`, and for a link `->` and its target.
pub open spec fn tree_entry_line(e: EntryView, path: Seq<Seq<char>>) -> Seq<char> {
    let text = join_text(path);
    let time = decimal(e.mtime as nat);
    match e.node {
        NodeView::Dir(_) => "d "@ + time + " "@ + text + "\n"@,
        NodeView::File { size, .. } => "f "@ + time + " "@ + decimal(size as nat) + " "@ + text + "\n"@,
        NodeView::Link { target } => "l "@ + time + " "@ + text + "->"@ + utf8_lossy(target) + "\n"@,
    }
}

/// The stable lines listing the entries `k` onwards of the forest `c`, whose
/// directories on the way from the root are named `names`, depth first in
/// order: each entry's line, with the names along its whole path, and for a
/// directory then the lines of its children.
pub open spec fn tree_stable_lines(c: Seq<EntryView>, k: int, names: Seq<Seq<char>>) -> Seq<char>
    decreases c, c.len() - k,
{
    if k < 0 || k >= c.len() {
        Seq::empty()
    } else {
        let e = c[k];
        let path = names.push(utf8_lossy(e.name));
        let here = match e.node {
            NodeView::Dir(cc) => tree_entry_line(e, path) + tree_stable_lines(cc, 0, path),
            _ => tree_entry_line(e, path),
        };
        here + tree_stable_lines(c, k + 1, names)
    }
}

/// The stable listing of a forest laid out from `b` lists the forest.
pub proof fn lemma_flat_stable_lines(
    t: Seq<JbkEntryView>,
    c: Seq<EntryView>,
    b: int,
    parent: Option<u32>,
    k: int,
    names: Seq<Seq<char>>,
    d: nat,
)
    requires
        flat_at(t, c, b, parent),
        tree_size(c) <= d,
        0 <= k <= c.len(),
    ensures
        stable_lines(t, b as nat, c.len() as nat, k as nat, names, d) == Some(tree_stable_lines(c, k, names)),
    decreases tree_size(c), c.len() - k,
{
    if k < c.len() {
        lemma_flat_block(t, c, b, parent);
        let e = t[b + k];
        assert(e == jbk_of(c[k], parent, child_start(c, b, k)));
        assert((b as nat + k as nat) as int == b + k);
        let path = names.push(utf8_lossy(c[k].name));
        lemma_flat_stable_lines(t, c, b, parent, k + 1, names, d);
        let here2 = match c[k].node {
            NodeView::Dir(cc) => tree_entry_line(c[k], path) + tree_stable_lines(cc, 0, path),
            _ => tree_entry_line(c[k], path),
        };
        if let NodeView::Dir(cc) = c[k].node {
            lemma_flat_child(t, c, b, parent, k, cc);
            lemma_inner_total(cc);
            assert(dir_line(e.mtime, path) == tree_entry_line(c[k], path));
            if cc.len() == 0 {
                assert(in_bounds(t, 0, 0));
                assert(stable_lines(t, 0, 0, 0, path, (d - 1) as nat) == Some(Seq::<char>::empty()));
                assert(tree_entry_line(c[k], path) + Seq::<char>::empty() =~= tree_entry_line(c[k], path));
            } else {
                let start = child_start(c, b, k);
                assert(start as u32 as int == start);
                assert(cc.len() as u32 as int == cc.len());
                lemma_flat_block(t, cc, start, Some((b + k) as u32));
                lemma_flat_stable_lines(t, cc, start, Some((b + k) as u32), 0, path, (d - 1) as nat);
                assert((start as u32) as nat == start as nat);
            }
            let here: Option<Seq<char>> = if d == 0 || !in_bounds(t, e.kind->first_child as int, e.kind->nb_children as int) {
                None
            } else {
                match stable_lines(t, e.kind->first_child as nat, e.kind->nb_children as nat, 0, path, (d - 1) as nat) {
                    Some(inner) => Some(dir_line(e.mtime, path) + inner),
                    None => None,
                }
            };
            assert(here == Some(here2));
        } else if let NodeView::File { size, .. } = c[k].node {
            assert(file_line(e.mtime, size, path) == here2);
        } else if let NodeView::Link { target } = c[k].node {
            assert(link_line(e.mtime, path, utf8_lossy(target)) == here2);
        }
        assert(tree_stable_lines(c, k, names) == here2 + tree_stable_lines(c, k + 1, names));
    }
}

/// The names of a path as text.
pub open spec fn path_text(p: Seq<Seq<u8>>) -> Seq<Seq<char>> {
    p.map_values(|n: Seq<u8>| utf8_lossy(n))
}

/// `w` stands in `s` from `i` on.
pub open spec fn stands_at<T>(s: Seq<T>, w: Seq<T>, i: int) -> bool {
    0 <= i && i + w.len() <= s.len() && s.subrange(i, i + w.len()) == w
}

/// The stable lines of a forest from its `k`-th entry on hold the line of
/// each entry that a path from an entry at `k` or later reaches, with the
/// names along the whole path: where it stands.
pub proof fn lemma_tree_stable_line_of(
    c: Seq<EntryView>,
    k: int,
    names: Seq<Seq<char>>,
    p: Seq<Seq<u8>>,
) -> (i: int)
    requires
        tree_lookup(c, p) is Some,
        0 <= k <= index_of_name(c, p[0]),
    ensures
        stands_at(
            tree_stable_lines(c, k, names),
            tree_entry_line(tree_lookup(c, p).unwrap(), names + path_text(p)),
            i,
        ),
    decreases p.len(), c.len() - k,
{
    lemma_index_of_name(c, p[0]);
    let j = index_of_name(c, p[0]);
    let path = names.push(utf8_lossy(c[k].name));
    let here = match c[k].node {
        NodeView::Dir(cc) => tree_entry_line(c[k], path) + tree_stable_lines(cc, 0, path),
        _ => tree_entry_line(c[k], path),
    };
    let rest = tree_stable_lines(c, k + 1, names);
    let s = tree_stable_lines(c, k, names);
    assert(s == here + rest);
    let line = tree_entry_line(tree_lookup(c, p).unwrap(), names + path_text(p));
    if k < j {
        let i1 = lemma_tree_stable_line_of(c, k + 1, names, p);
        assert(s.subrange(here.len() + i1, here.len() + i1 + line.len()) =~= rest.subrange(i1, i1 + line.len()));
        here.len() + i1
    } else if p.len() == 1 {
        assert(names + path_text(p) =~= path);
        assert(tree_lookup(c, p) == Some(c[k]));
        assert(s.subrange(0, line.len() as int) =~= line);
        0
    } else {
        if let NodeView::Dir(cc) = c[k].node {
            let q = p.drop_first();
            lemma_index_of_name(cc, q[0]);
            assert(path_text(p) =~= seq![utf8_lossy(p[0])] + path_text(q));
            assert(names + path_text(p) =~= path + path_text(q));
            let i1 = lemma_tree_stable_line_of(cc, 0, path, q);
            let top = tree_entry_line(c[k], path);
            let below = tree_stable_lines(cc, 0, path);
            assert(s.subrange(top.len() + i1, top.len() + i1 + line.len()) =~= below.subrange(i1, i1 + line.len()));
            top.len() + i1
        } else {
            assert(false);
            0
        }
    }
}

} // verus!
