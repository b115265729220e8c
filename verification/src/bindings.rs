//! What the Python module of the library decides, apart from Python itself:
//! walking the entries of a range one by one, what each kind of entry gives,
//! and when a creator may be used.
use vstd::prelude::*;
use crate::arx::{is_format_error, read_as, Arx, Entry};
use crate::error::QueryError;
use crate::table::EntryRange;
use crate::tree::ContentAddress;

verus! {

/// The entries from index `start` up to `end`, read one by one.
pub struct EntryIter {
    pub start: u32,
    pub end: u32,
}

impl EntryIter {
    /// The entries of `range`.
    pub fn new_from_range(range: EntryRange) -> (r: Self)
        requires
            range.first + range.count <= u32::MAX,
        ensures
            r.start == range.first,
            r.end == range.first + range.count,
            r.start <= r.end,
    {
        EntryIter { start: range.first, end: range.first + range.count }
    }

    /// The entries at the root of `arx`.
    pub fn new_from_index(arx: &Arx) -> (r: Self)
        requires
            arx.root.first + arx.root.count <= u32::MAX,
        ensures
            r.start == arx.root.first,
            r.end == arx.root.first + arx.root.count,
    {
        Self::new_from_range(arx.root)
    }

    /// The next entry, if any is left; an entry that cannot be read is an
    /// error, and is tried again by the next call.
    pub fn next(&mut self, arx: &Arx) -> (r: Option<Result<Entry, QueryError>>)
        requires
            old(self).start <= old(self).end,
        ensures
            final(self).start <= final(self).end,
            final(self).end == old(self).end,
            old(self).start == old(self).end ==> r is None && final(self).start == old(self).start,
            old(self).start != old(self).end ==> match r {
                Some(Ok(e)) => old(self).start < arx.entries@.len() && read_as(
                    e,
                    arx.table()[old(self).start as int],
                    old(self).start,
                ) && final(self).start == old(self).start + 1,
                Some(Err(e)) => old(self).start >= arx.entries@.len() && is_format_error(e) && final(self).start
                    == old(self).start,
                None => false,
            },
    {
        if self.start == self.end {
            return None;
        }
        match arx.get_entry_at_idx(self.start) {
            Ok(e) => {
                self.start = self.start + 1;
                Some(Ok(e))
            },
            Err(e) => Some(Err(e)),
        }
    }
}

// ---------------------------------------------------------------------------
// What each kind of entry gives.
// ---------------------------------------------------------------------------

/// The content of a file entry; an error for any other kind.
pub fn get_content_address(entry: &Entry) -> (r: Result<ContentAddress, &'static str>)
    ensures
        match entry {
            Entry::File(f) => r == Ok::<ContentAddress, &'static str>(f.content),
            _ => r matches Err(m) && m@ == "Not a file"@,
        },
{
    match entry {
        Entry::File(f) => Ok(f.content),
        _ => Err("Not a file"),
    }
}

/// The target of a link entry; an error for any other kind.
pub fn get_target(entry: &Entry) -> (r: Result<Vec<u8>, &'static str>)
    ensures
        match entry {
            Entry::Link(l) => r matches Ok(t) && t@ == l.target@,
            _ => r matches Err(m) && m@ == "Not a link"@,
        },
{
    match entry {
        Entry::Link(l) => Ok(crate::bytes::copy_bytes(l.target.as_slice())),
        _ => Err("Not a link"),
    }
}

/// The index of the first child of a directory entry; an error for any
/// other kind.
pub fn first_child(entry: &Entry) -> (r: Result<u32, &'static str>)
    ensures
        match entry {
            Entry::Dir(range, _) => r == Ok::<u32, &'static str>(range.first),
            _ => r matches Err(m) && m@ == "Not a dir"@,
        },
{
    match entry {
        Entry::Dir(range, _) => Ok(range.first),
        _ => Err("Not a dir"),
    }
}

/// The number of children of a directory entry; an error for any other
/// kind.
pub fn nb_children(entry: &Entry) -> (r: Result<u32, &'static str>)
    ensures
        match entry {
            Entry::Dir(range, _) => r == Ok::<u32, &'static str>(range.count),
            _ => r matches Err(m) && m@ == "Not a dir"@,
        },
{
    match entry {
        Entry::Dir(range, _) => Ok(range.count),
        _ => Err("Not a dir"),
    }
}

/// The entries under a directory entry, one by one; an error for any other
/// kind.
pub fn children(entry: &Entry) -> (r: Result<EntryIter, &'static str>)
    requires
        entry matches Entry::Dir(range, _) ==> range.first + range.count <= u32::MAX,
    ensures
        match entry {
            Entry::Dir(range, _) => r matches Ok(it) && it.start == range.first && it.end == range.first
                + range.count,
            _ => r matches Err(m) && m@ == "Not a dir"@,
        },
{
    match entry {
        Entry::Dir(range, _) => Ok(EntryIter::new_from_range(*range)),
        _ => Err("Not a dir"),
    }
}

// ---------------------------------------------------------------------------
// A creator used as a context.
// ---------------------------------------------------------------------------

/// A creator, which is used between entering and leaving a context, once:
/// entries are added inside it, and leaving it writes the archive.
#[derive(Clone, Copy, PartialEq, Eq, Structural, Debug)]
pub struct Creator {
    pub started: bool,
    pub finalized: bool,
}

/// What entering the context of `c` does: refused once the archive is
/// written or inside the context already.
pub open spec fn enter_spec(c: Creator) -> (Creator, Result<(), Seq<char>>) {
    if c.finalized {
        (c, Err("Creator already finalized"@))
    } else if c.started {
        (c, Err("Creator already started"@))
    } else {
        (Creator { started: true, ..c }, Ok(()))
    }
}

/// What leaving the context of `c` does: refused outside it; otherwise the
/// context is left and the archive is written, unless it was already.
pub open spec fn exit_spec(c: Creator) -> (Creator, Result<(), Seq<char>>) {
    if !c.started {
        (c, Err("Creator not started."@))
    } else if c.finalized {
        (Creator { started: false, ..c }, Err("Creator already finalized"@))
    } else {
        (Creator { started: false, finalized: true }, Ok(()))
    }
}

/// Whether entries may be added to `c`, or why not.
pub open spec fn add_spec(c: Creator) -> Result<(), Seq<char>> {
    if c.finalized {
        Err("Creator already finalized"@)
    } else if !c.started {
        Err("add method must be used inside a context manager"@)
    } else {
        Ok(())
    }
}

/// A refusal message as text.
pub open spec fn message_view(r: Result<(), &'static str>) -> Result<(), Seq<char>> {
    match r {
        Ok(()) => Ok(()),
        Err(m) => Err(m@),
    }
}

impl Creator {
    /// A creator not used yet.
    pub fn new() -> (r: Self)
        ensures
            !r.started,
            !r.finalized,
    {
        Creator { started: false, finalized: false }
    }

    /// Enters the context.
    pub fn enter(&mut self) -> (r: Result<(), &'static str>)
        ensures
            (*final(self), message_view(r)) == enter_spec(*old(self)),
    {
        if self.finalized {
            return Err("Creator already finalized");
        }
        if self.started {
            return Err("Creator already started");
        }
        self.started = true;
        Ok(())
    }

    /// Leaves the context; the archive is to be written when this succeeds.
    pub fn exit(&mut self) -> (r: Result<(), &'static str>)
        ensures
            (*final(self), message_view(r)) == exit_spec(*old(self)),
    {
        if !self.started {
            return Err("Creator not started.");
        }
        self.started = false;
        if self.finalized {
            return Err("Creator already finalized");
        }
        self.finalized = true;
        Ok(())
    }

    /// Whether entries may be added now.
    pub fn add(&self) -> (r: Result<(), &'static str>)
        ensures
            message_view(r) == add_spec(*self),
    {
        if self.finalized {
            return Err("Creator already finalized");
        }
        if !self.started {
            return Err("add method must be used inside a context manager");
        }
        Ok(())
    }
}

/// A creator is used once: a new one can be entered, entries can be added
/// inside its context, leaving it writes the archive; from then on, whatever
/// is done, entries cannot be added and no context can be entered again.
pub proof fn law_creator_is_used_once(c: Creator)
    ensures
        !c.started && !c.finalized ==> {
            let inside = enter_spec(c).0;
            &&& enter_spec(c).1 is Ok
            &&& add_spec(inside) is Ok
            &&& exit_spec(inside).1 is Ok
            &&& exit_spec(inside).0.finalized
        },
        c.finalized ==> {
            &&& enter_spec(c).0.finalized && enter_spec(c).1 is Err
            &&& exit_spec(c).0.finalized && exit_spec(c).1 is Err
            &&& add_spec(c) is Err
        },
{
}

} // verus!
