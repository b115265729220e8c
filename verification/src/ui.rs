//! What the archive viewer shows and remembers: sizes written for people,
//! the directories entered, the last error, and the state of its bars.
use vstd::prelude::*;
use crate::arx::{copy_file, same_file, Arx, Entry, FileEntry};
use crate::error::{arx_error_text, ArxError, ArxFormatError, BaseError};
use crate::table::EntryRange;

verus! {

// ---------------------------------------------------------------------------
// Numbers as text.
// ---------------------------------------------------------------------------

/// The character of the digit `d`.
pub open spec fn digit_char(d: int) -> char {
    (48 + d) as char
}

/// The decimal digits of `n`, most significant first.
pub open spec fn decimal(n: nat) -> Seq<char>
    decreases n,
{
    if n < 10 {
        seq![digit_char(n as int)]
    } else {
        decimal(n / 10) + seq![digit_char((n % 10) as int)]
    }
}

/// The text of the digit `d`.
fn digit_str(d: u128) -> (r: &'static str)
    requires
        d < 10,
    ensures
        r@ == seq![digit_char(d as int)],
{
    proof {
        reveal_strlit("0");
        reveal_strlit("1");
        reveal_strlit("2");
        reveal_strlit("3");
        reveal_strlit("4");
        reveal_strlit("5");
        reveal_strlit("6");
        reveal_strlit("7");
        reveal_strlit("8");
        reveal_strlit("9");
    }
    if d == 0 {
        "0"
    } else if d == 1 {
        "1"
    } else if d == 2 {
        "2"
    } else if d == 3 {
        "3"
    } else if d == 4 {
        "4"
    } else if d == 5 {
        "5"
    } else if d == 6 {
        "6"
    } else if d == 7 {
        "7"
    } else if d == 8 {
        "8"
    } else {
        "9"
    }
}

/// Appends the decimal digits of `n` to `s`.
pub(crate) fn push_decimal(s: &mut String, n: u128)
    ensures
        final(s)@ == old(s)@ + decimal(n as nat),
    decreases n,
{
    if n >= 10 {
        push_decimal(s, n / 10);
        s.append(digit_str(n % 10));
        proof {
            assert(final(s)@ =~= old(s)@ + decimal(n as nat));
        }
    } else {
        s.append(digit_str(n));
    }
}

/// The integer nearest to `n / d`, a tie going to the even one.
pub open spec fn round_half_even(n: int, d: int) -> int {
    let q = n / d;
    let r = n % d;
    if 2 * r > d || (2 * r == d && q % 2 == 1) {
        q + 1
    } else {
        q
    }
}

/// The smallest power of two from `d` up by which `b` divides to less than
/// 2^53.
pub open spec fn unit_from(b: nat, d: nat) -> nat
    decreases b - d,
    when d >= 1
{
    if b / d < 0x20_0000_0000_0000 || 2 * d > b {
        d
    } else {
        unit_from(b, 2 * d)
    }
}

/// The value of `b as f64`: `b` rounded to 53 significant bits, a tie going
/// to an even significand.
pub open spec fn f64_value(b: nat) -> int {
    let d = unit_from(b, 1);
    round_half_even(b as int, d as int) * d
}

/// `b` divided by `unit`, with two decimals, as `{:.2}` writes the `f64`
/// quotient.
pub open spec fn fixed2(b: nat, unit: int) -> Seq<char> {
    let h = round_half_even(f64_value(b) * 100, unit);
    decimal((h / 100) as nat) + seq!['.'] + seq![digit_char((h % 100) / 10), digit_char(h % 10)]
}

pub const KB: u64 = 1024;
pub const MB: u64 = 1024 * 1024;
pub const GB: u64 = 1024 * 1024 * 1024;

/// A size in bytes, as the file list shows it.
pub open spec fn size_text(bytes: u64) -> Seq<char> {
    if bytes >= GB {
        fixed2(bytes as nat, GB as int) + " GB"@
    } else if bytes >= MB {
        fixed2(bytes as nat, MB as int) + " MB"@
    } else if bytes >= KB {
        fixed2(bytes as nat, KB as int) + " KB"@
    } else {
        decimal(bytes as nat) + " B"@
    }
}

/// The integer nearest to `n / d`, a tie going to the even one.
fn div_round_half_even(n: u128, d: u128) -> (r: u128)
    requires
        0 < d <= 0x1_0000_0000_0000_0000,
        n < 0x1_0000_0000_0000_0000_0000,
    ensures
        r == round_half_even(n as int, d as int),
{
    let q = n / d;
    let rem = n % d;
    proof {
        assert(q <= n && rem < d) by (nonlinear_arith)
            requires
                q == n / d,
                rem == n % d,
                d > 0,
        ;
    }
    if 2 * rem > d || (2 * rem == d && q % 2 == 1) {
        q + 1
    } else {
        q
    }
}

/// The value of `b as f64`, exactly, as an integer.
fn f64_exact(b: u64) -> (r: u128)
    ensures
        r == f64_value(b as nat),
        r <= 0x1_0000_0000_0000_1000,
{
    let mut d: u64 = 1;
    while b / d >= 0x20_0000_0000_0000u64 && 2 * d <= b
        invariant
            d >= 1,
            d <= 0x1000,
            unit_from(b as nat, d as nat) == unit_from(b as nat, 1),
        decreases b - d,
    {
        proof {
            assert(d * 0x20_0000_0000_0000 <= b) by (nonlinear_arith)
                requires
                    b / d >= 0x20_0000_0000_0000,
                    d >= 1,
            ;
            assert(d < 0x800) by (nonlinear_arith)
                requires
                    d * 0x20_0000_0000_0000 <= b,
                    b <= 0xffff_ffff_ffff_ffff,
                    d >= 1,
            ;
        }
        d = d * 2;
    }
    proof {
        if 2 * d > b {
            assert(b / d < 2) by (nonlinear_arith)
                requires
                    2 * d > b,
                    d >= 1,
            ;
        }
    }
    let q = div_round_half_even(b as u128, d as u128);
    proof {
        assert(q <= 0x20_0000_0000_0000) by (nonlinear_arith)
            requires
                q == round_half_even(b as int, d as int),
                b / d < 0x20_0000_0000_0000,
                d >= 1,
        ;
        assert(q * d <= b + d) by (nonlinear_arith)
            requires
                q == round_half_even(b as int, d as int),
                1 <= d,
        ;
    }
    q * (d as u128)
}

/// Appends `bytes / unit`, with two decimals, to `s`.
fn push_fixed2(s: &mut String, bytes: u64, unit: u64)
    requires
        unit > 0,
    ensures
        final(s)@ == old(s)@ + fixed2(bytes as nat, unit as int),
{
    let v = f64_exact(bytes);
    let h = div_round_half_even(v * 100, unit as u128);
    push_decimal(s, h / 100);
    s.append(".");
    s.append(digit_str((h % 100) / 10));
    s.append(digit_str(h % 10));
    proof {
        reveal_strlit(".");
        assert(final(s)@ =~= old(s)@ + fixed2(bytes as nat, unit as int));
    }
}

/// A size in bytes written for people: in GB, MB or KB with two decimals
/// from a KB on, else in bytes.
pub fn format_size(bytes: u64) -> (r: String)
    ensures
        r@ == size_text(bytes),
{
    let mut s = String::new();
    if bytes >= GB {
        push_fixed2(&mut s, bytes, GB);
        s.append(" GB");
    } else if bytes >= MB {
        push_fixed2(&mut s, bytes, MB);
        s.append(" MB");
    } else if bytes >= KB {
        push_fixed2(&mut s, bytes, KB);
        s.append(" KB");
    } else {
        push_decimal(&mut s, bytes as u128);
        s.append(" B");
    }
    proof {
        assert(s@ =~= size_text(bytes));
    }
    s
}

// ---------------------------------------------------------------------------
// The last error.
// ---------------------------------------------------------------------------

/// The message of the last error, until it is shown.
pub struct ErrorMsg {
    error: Option<String>,
}

impl View for ErrorMsg {
    type V = Option<Seq<char>>;

    closed spec fn view(&self) -> Option<Seq<char>> {
        match self.error {
            Some(e) => Some(e@),
            None => None,
        }
    }
}

impl Default for ErrorMsg {
    fn default() -> (r: Self)
        ensures
            r@ is None,
    {
        ErrorMsg { error: None }
    }
}

impl ErrorMsg {
    /// The value of `result`; its error, if any, is kept as the last one.
    pub fn catch<T>(&mut self, result: Result<T, String>) -> (r: Option<T>)
        ensures
            match result {
                Ok(v) => r == Some(v) && final(self)@ == old(self)@,
                Err(e) => r is None && final(self)@ == Some(e@),
            },
    {
        match result {
            Ok(v) => Some(v),
            Err(e) => {
                self.error = Some(e);
                None
            },
        }
    }

    /// The last error, which is then forgotten.
    pub fn take(&mut self) -> (r: Option<String>)
        ensures
            match r {
                Some(e) => old(self)@ == Some(e@),
                None => old(self)@ is None,
            },
            final(self)@ is None,
    {
        let e = self.error.take();
        e
    }
}

// ---------------------------------------------------------------------------
// The directories entered.
// ---------------------------------------------------------------------------

/// A directory entered: its range of children and its name.
pub open spec fn root_view(r: (EntryRange, String)) -> (EntryRange, Seq<char>) {
    (r.0, r.1@)
}

/// The directories entered, from the archive's root down.
pub open spec fn roots_view(v: Seq<(EntryRange, String)>) -> Seq<(EntryRange, Seq<char>)> {
    v.map_values(|r: (EntryRange, String)| root_view(r))
}

/// The error of a directory whose entries lie out of the entry store.
pub open spec fn read_range_error() -> ArxError {
    ArxError::BaseError(BaseError::ArxFormatError(ArxFormatError("Entry range out of the entry store")))
}

/// An archive open in the viewer: the directories entered, from its root,
/// and the entries of the last one.
pub struct ArxModel {
    pub archive: Arx,
    pub path: String,
    pub roots: Vec<(EntryRange, String)>,
    pub entry_list: Vec<Entry>,
}

/// The range shown for the directories entered: the last one's, or the
/// archive's root.
pub open spec fn shown_range(archive: &Arx, roots: Seq<(EntryRange, Seq<char>)>) -> EntryRange {
    if roots.len() == 0 {
        archive.root
    } else {
        roots.last().0
    }
}

/// `list` holds, in order, the entries of `range` as read from `archive`.
pub open spec fn lists_range(archive: &Arx, range: EntryRange, list: Seq<Entry>) -> bool {
    &&& range.first + range.count <= archive.table().len()
    &&& range.first + range.count <= u32::MAX
    &&& list.len() == range.count
    &&& forall|k: int|
        0 <= k < range.count ==> crate::arx::read_as(
            #[trigger] list[k],
            archive.table()[range.first + k],
            (range.first + k) as u32,
        )
}

impl ArxModel {
    /// The viewer's state for `archive`, read from `path`, at its root.
    pub fn open(archive: Arx, path: String) -> (r: Result<ArxModel, ArxError>)
        ensures
            match r {
                Ok(m) => m.archive == archive && m.path@ == path@ && m.roots@.len() == 0 && lists_range(
                    &m.archive,
                    archive.root,
                    m.entry_list@,
                ),
                Err(e) => e == read_range_error() && !(archive.root.first + archive.root.count
                    <= archive.table().len() && archive.root.first + archive.root.count <= u32::MAX),
            },
    {
        let mut s = ArxModel { archive, path, roots: Vec::new(), entry_list: Vec::new() };
        match s.update_entries() {
            Ok(()) => Ok(s),
            Err(e) => Err(e),
        }
    }

    /// The last directory entered, if any.
    pub fn root(&self) -> (r: Option<(EntryRange, String)>)
        ensures
            match r {
                Some(x) => self.roots@.len() > 0 && root_view(x) == root_view(self.roots@.last()),
                None => self.roots@.len() == 0,
            },
    {
        if self.roots.len() == 0 {
            None
        } else {
            let last = &self.roots[self.roots.len() - 1];
            Some((last.0, last.1.clone()))
        }
    }

    /// Reads the entries of the directory shown.
    fn update_entries(&mut self) -> (r: Result<(), ArxError>)
        ensures
            final(self).archive == old(self).archive,
            final(self).path == old(self).path,
            final(self).roots == old(self).roots,
            match r {
                Ok(()) => lists_range(
                    &final(self).archive,
                    shown_range(&old(self).archive, roots_view(old(self).roots@)),
                    final(self).entry_list@,
                ),
                Err(e) => final(self).entry_list == old(self).entry_list && e == read_range_error() && ({
                    let range = shown_range(&old(self).archive, roots_view(old(self).roots@));
                    !(range.first + range.count <= old(self).archive.table().len() && range.first
                        + range.count <= u32::MAX)
                }),
            },
    {
        let range = if self.roots.len() == 0 {
            self.archive.root
        } else {
            self.roots[self.roots.len() - 1].0
        };
        proof {
            if self.roots@.len() > 0 {
                assert(roots_view(self.roots@).last() == root_view(self.roots@.last()));
            }
        }
        match self.archive.entries_in(range) {
            Ok(list) => {
                self.entry_list = list;
                Ok(())
            },
            Err(e) => Err(ArxError::from_query(e)),
        }
    }

    /// Enters a directory, and reads its entries.
    pub fn enter_in(&mut self, new_root: (EntryRange, String)) -> (r: Result<(), ArxError>)
        ensures
            final(self).archive == old(self).archive,
            roots_view(final(self).roots@) == roots_view(old(self).roots@).push(root_view(new_root)),
            final(self).path == old(self).path,
            r is Ok ==> lists_range(&final(self).archive, new_root.0, final(self).entry_list@),
            r matches Err(e) ==> final(self).entry_list == old(self).entry_list && e == read_range_error() && !(
            new_root.0.first + new_root.0.count <= old(self).archive.table().len() && new_root.0.first
                + new_root.0.count <= u32::MAX),
    {
        self.roots.push(new_root);
        proof {
            assert(roots_view(self.roots@) =~= roots_view(old(self).roots@).push(root_view(new_root)));
        }
        self.update_entries()
    }

    /// Goes back to the `index` first directories entered, and reads the
    /// entries of the last of them.
    pub fn jump_off(&mut self, index: usize) -> (r: Result<(), ArxError>)
        requires
            index <= old(self).roots@.len(),
        ensures
            final(self).archive == old(self).archive,
            roots_view(final(self).roots@) == roots_view(old(self).roots@).subrange(0, index as int),
            final(self).path == old(self).path,
            r is Ok ==> lists_range(
                &final(self).archive,
                shown_range(&final(self).archive, roots_view(final(self).roots@)),
                final(self).entry_list@,
            ),
            r matches Err(e) ==> final(self).entry_list == old(self).entry_list && e == read_range_error() && ({
                let range = shown_range(&final(self).archive, roots_view(final(self).roots@));
                !(range.first + range.count <= final(self).archive.table().len() && range.first + range.count
                    <= u32::MAX)
            }),
    {
        self.roots.truncate(index);
        proof {
            assert(roots_view(self.roots@) =~= roots_view(old(self).roots@).subrange(0, index as int));
        }
        self.update_entries()
    }
}

/// Entering a directory and then jumping back to the directories entered
/// before gives them back.
pub proof fn lemma_enter_then_jump_back(roots: Seq<(EntryRange, Seq<char>)>, new_root: (EntryRange, Seq<char>))
    ensures
        roots.push(new_root).subrange(0, roots.len() as int) == roots,
{
    assert(roots.push(new_root).subrange(0, roots.len() as int) =~= roots);
}

// ---------------------------------------------------------------------------
// The bars and the file list.
// ---------------------------------------------------------------------------

/// The menu bar: extracting is offered only with an archive open.
pub struct MenuBar {
    pub has_archive: bool,
}

impl MenuBar {
    pub fn new(has_archive: bool) -> (r: Self)
        ensures
            r.has_archive == has_archive,
    {
        MenuBar { has_archive }
    }
}

/// The spinner shown while a task runs in the background.
pub struct Spinner;

/// `Path::file_name` then `OsStr::to_string_lossy`: the last component of a
/// file system path, if it names something.
pub uninterp spec fn fs_file_name(path: Seq<char>) -> Option<Seq<char>>;

/// Calls `std::path::Path::file_name`; the result is named `fs_file_name`.
#[verifier::external_body]
fn path_file_name(path: &str) -> (r: Option<String>)
    ensures
        match r {
            Some(n) => fs_file_name(path@) == Some(n@),
            None => fs_file_name(path@) is None,
        },
{
    std::path::Path::new(path).file_name().map(|n| n.to_string_lossy().to_string())
}

/// The status bar: the status message, and the file name of the archive
/// open, if any.
pub struct StatusBar {
    pub status_message: String,
    pub archive_file_name: Option<String>,
}

impl StatusBar {
    /// The status bar for `status_message` and the path of the archive open.
    pub fn new(status_message: &str, archive_path: Option<&str>) -> (r: Self)
        ensures
            r.status_message@ == status_message@,
            match archive_path {
                None => r.archive_file_name is None,
                Some(p) => match fs_file_name(p@) {
                    Some(n) => r.archive_file_name matches Some(x) && x@ == n,
                    None => r.archive_file_name is None,
                },
            },
    {
        let archive_file_name = match archive_path {
            None => None,
            Some(p) => path_file_name(p),
        };
        StatusBar { status_message: status_message.to_owned(), archive_file_name }
    }
}

/// The text of bytes read as UTF-8, each invalid sequence replaced.
pub uninterp spec fn utf8_lossy(bytes: Seq<u8>) -> Seq<char>;

/// Calls `String::from_utf8_lossy`; the result is named `utf8_lossy`.
#[verifier::external_body]
pub(crate) fn from_utf8_lossy(bytes: &[u8]) -> (r: String)
    ensures
        r@ == utf8_lossy(bytes@),
{
    String::from_utf8_lossy(bytes).to_string()
}

/// A row of the file list: an icon for the kind, the name, and for a file
/// its size.
pub struct FileRow {
    pub icon: &'static str,
    pub name: String,
    pub size: Option<String>,
}

/// The row shown for an entry.
pub fn file_row(entry: &Entry) -> (r: FileRow)
    ensures
        r.name@ == utf8_lossy(match entry {
            Entry::File(f) => f.common.path@,
            Entry::Link(l) => l.common.path@,
            Entry::Dir(_, d) => d.common.path@,
        }),
        match entry {
            Entry::File(f) => r.icon@ == "📄"@ && (r.size matches Some(s) && s@ == size_text(f.size)),
            Entry::Link(_) => r.icon@ == "🔗"@ && r.size is None,
            Entry::Dir(_, _) => r.icon@ == "📁"@ && r.size is None,
        },
{
    match entry {
        Entry::File(f) => FileRow {
            icon: "📄",
            name: from_utf8_lossy(f.common.path.as_slice()),
            size: Some(format_size(f.size)),
        },
        Entry::Link(l) => FileRow { icon: "🔗", name: from_utf8_lossy(l.common.path.as_slice()), size: None },
        Entry::Dir(_, d) => FileRow { icon: "📁", name: from_utf8_lossy(d.common.path.as_slice()), size: None },
    }
}

// ---------------------------------------------------------------------------
// Actions on the file list.
// ---------------------------------------------------------------------------

/// What the viewer is asked to do.
pub enum Action {
    /// Show the directory with these children and this name.
    Enter((EntryRange, String)),
    /// Open a file with the program the desktop has for it.
    Open(FileEntry),
    /// Load the archive at this path.
    LoadArchive(String),
    /// Go back to the first directories entered, this many of them.
    JumpTo(usize),
    /// Extract the whole archive.
    ExtractAll,
    /// Extract one file.
    ExtractOne(FileEntry),
    /// Extract the directory with these children and this name.
    ExtractDir((EntryRange, String)),
}

/// The name of an entry as shown.
pub open spec fn entry_name(entry: Entry) -> Seq<char> {
    utf8_lossy(
        match entry {
            Entry::File(f) => f.common.path@,
            Entry::Link(l) => l.common.path@,
            Entry::Dir(_, d) => d.common.path@,
        },
    )
}

/// What a double click on the row of `entry` asks: entering a directory,
/// opening a file; nothing for a link.
pub fn row_double_click(entry: &Entry) -> (r: Option<Action>)
    ensures
        match entry {
            Entry::Dir(range, _) => r matches Some(Action::Enter((rr, n))) && rr == *range && n@ == entry_name(*entry),
            Entry::File(f) => r matches Some(Action::Open(g)) && same_file(g, *f),
            Entry::Link(_) => r is None,
        },
{
    match entry {
        Entry::Dir(range, d) => Some(Action::Enter((*range, from_utf8_lossy(d.common.path.as_slice())))),
        Entry::File(f) => Some(Action::Open(copy_file(f))),
        Entry::Link(_) => None,
    }
}

/// The context menu of the row of `entry`, as labelled actions: entering or
/// extracting a directory, opening or extracting a file; none for a link.
pub fn row_menu(entry: &Entry) -> (r: Vec<(&'static str, Action)>)
    ensures
        match entry {
            Entry::Dir(range, _) => r@.len() == 2 && r@[0].0@ == "Enter"@ && (r@[0].1 matches Action::Enter((rr, n))
                && rr == *range && n@ == entry_name(*entry)) && r@[1].0@ == "Extract"@ && (r@[1].1 matches Action::ExtractDir(
                (rr, n),
            ) && rr == *range && n@ == entry_name(*entry)),
            Entry::File(f) => r@.len() == 2 && r@[0].0@ == "Open"@ && (r@[0].1 matches Action::Open(g) && same_file(
                g,
                *f,
            )) && r@[1].0@ == "Extract"@ && (r@[1].1 matches Action::ExtractOne(g) && same_file(g, *f)),
            Entry::Link(_) => r@.len() == 0,
        },
{
    let mut r: Vec<(&'static str, Action)> = Vec::new();
    match entry {
        Entry::Dir(range, d) => {
            r.push(("Enter", Action::Enter((*range, from_utf8_lossy(d.common.path.as_slice())))));
            r.push(("Extract", Action::ExtractDir((*range, from_utf8_lossy(d.common.path.as_slice())))));
        },
        Entry::File(f) => {
            r.push(("Open", Action::Open(copy_file(f))));
            r.push(("Extract", Action::ExtractOne(copy_file(f))));
        },
        Entry::Link(_) => {},
    }
    r
}

/// The buttons of the path bar, each with how many of the directories
/// entered it goes back to: the archive's root, then each directory entered
/// by its name.
pub fn breadcrumbs(model: &ArxModel) -> (r: Vec<(String, usize)>)
    ensures
        r@.len() == model.roots@.len() + 1,
        r@[0].0@ == "📂"@ && r@[0].1 == 0,
        forall|i: int| 0 <= i < model.roots@.len() ==> #[trigger] r@[i + 1].0@ == model.roots@[i].1@ && r@[i + 1].1 == i + 1,
{
    let mut r: Vec<(String, usize)> = Vec::new();
    r.push(("📂".to_string(), 0));
    let mut i: usize = 0;
    while i < model.roots.len()
        invariant
            i <= model.roots@.len(),
            r@.len() == i + 1,
            r@[0].0@ == "📂"@ && r@[0].1 == 0,
            forall|j: int| 0 <= j < i ==> #[trigger] r@[j + 1].0@ == model.roots@[j].1@ && r@[j + 1].1 == j + 1,
        decreases model.roots@.len() - i,
    {
        r.push((model.roots[i].1.clone(), i + 1));
        i = i + 1;
    }
    r
}

// ---------------------------------------------------------------------------
// The viewer.
// ---------------------------------------------------------------------------

/// The work an action hands out, to run in the background.
pub enum Task {
    /// Nothing to do.
    Idle,
    /// Open the archive at this path, and hand back what came of it.
    Load(String),
    /// Ask where to, and extract the whole archive there.
    ExtractAll,
    /// Ask under which directory, and extract this directory there.
    ExtractDir(EntryRange, String),
    /// Ask which file to write, and extract this file into it.
    ExtractOne(FileEntry),
    /// Extract this file in a temporary directory and open it.
    OpenFile(FileEntry),
}

/// The state of the viewer: the archive open, if any, the status message
/// and the last error.
pub struct AppModel {
    pub archive: Option<ArxModel>,
    pub status_message: String,
    pub error_msg: ErrorMsg,
}

/// The status message while `what` is loaded.
pub open spec fn loading_text(what: Seq<char>) -> Seq<char> {
    "Loading "@ + what + "..."@
}

/// The status message while `what` is extracted.
pub open spec fn extracting_text(what: Seq<char>) -> Seq<char> {
    "Extracting "@ + what + "..."@
}

/// `what` between a word and an ellipsis.
fn status_text(word: &str, what: &str) -> (r: String)
    ensures
        r@ == word@ + what@ + "..."@,
{
    let mut r = String::new();
    r.append(word);
    r.append(what);
    r.append("...");
    r
}

/// The range of a directory lies in the store.
pub open spec fn range_in(archive: &Arx, range: EntryRange) -> bool {
    range.first + range.count <= archive.table().len() && range.first + range.count <= u32::MAX
}

impl AppModel {
    /// The viewer, loading the archive at `path` if one is given.
    pub fn new(path: Option<String>) -> (r: (AppModel, Task))
        ensures
            r.0.archive is None,
            r.0.error_msg@ is None,
            match path {
                Some(p) => r.0.status_message@ == loading_text(p@) && (r.1 matches Task::Load(q) && q@ == p@),
                None => r.0.status_message@.len() == 0 && r.1 is Idle,
            },
    {
        let mut m = AppModel { archive: None, status_message: String::new(), error_msg: ErrorMsg { error: None } };
        match path {
            Some(p) => {
                let t = m.load_archive(p);
                (m, t)
            },
            None => (m, Task::Idle),
        }
    }

    /// Whether an archive is open.
    pub fn has_archive(&self) -> (r: bool)
        ensures
            r == self.archive is Some,
    {
        self.archive.is_some()
    }

    /// Starts loading the archive at `path`.
    fn load_archive(&mut self, path: String) -> (r: Task)
        ensures
            final(self).status_message@ == loading_text(path@),
            final(self).archive == old(self).archive,
            final(self).error_msg == old(self).error_msg,
            r matches Task::Load(q) && q@ == path@,
    {
        self.status_message = status_text("Loading ", path.as_str());
        Task::Load(path)
    }

    /// Takes what came of loading an archive: the archive now open, or none
    /// and the error kept.
    pub fn archive_loaded(&mut self, result: Result<ArxModel, ArxError>)
        ensures
            final(self).status_message == old(self).status_message,
            match result {
                Ok(m) => final(self).archive == Some(m) && final(self).error_msg@ == old(self).error_msg@,
                Err(e) => final(self).archive is None && final(self).error_msg@ == Some(arx_error_text(e)),
            },
    {
        let r = match result {
            Ok(m) => Ok(m),
            Err(e) => Err(e.message()),
        };
        self.archive = self.error_msg.catch(r);
    }

    /// Does what `action` asks: enters a directory or goes back, keeping the
    /// error if the entries cannot be read, and hands out the work to run in
    /// the background with the status message for it. Without an archive
    /// open, only loading one does anything.
    pub fn update(&mut self, action: Action) -> (r: Task)
        requires
            action matches Action::JumpTo(i) ==> (old(self).archive matches Some(a) ==> i <= a.roots@.len()),
        ensures
            match action {
                Action::LoadArchive(p) => {
                    &&& final(self).status_message@ == loading_text(p@)
                    &&& final(self).archive == old(self).archive
                    &&& final(self).error_msg == old(self).error_msg
                    &&& r matches Task::Load(q) && q@ == p@
                },
                _ => match old(self).archive {
                    None => *final(self) == *old(self) && r is Idle,
                    Some(a) => final(self).archive matches Some(b) && b.archive == a.archive && b.path == a.path
                        && match action {
                        Action::Enter(new_root) => {
                            &&& roots_view(b.roots@) == roots_view(a.roots@).push(root_view(new_root))
                            &&& final(self).status_message == old(self).status_message
                            &&& r is Idle
                            &&& if range_in(&a.archive, new_root.0) {
                                lists_range(&b.archive, new_root.0, b.entry_list@) && final(self).error_msg@
                                    == old(self).error_msg@
                            } else {
                                b.entry_list == a.entry_list && final(self).error_msg@ == Some(
                                    arx_error_text(read_range_error()),
                                )
                            }
                        },
                        Action::JumpTo(i) => {
                            &&& roots_view(b.roots@) == roots_view(a.roots@).subrange(0, i as int)
                            &&& final(self).status_message == old(self).status_message
                            &&& r is Idle
                            &&& if range_in(&a.archive, shown_range(&a.archive, roots_view(b.roots@))) {
                                lists_range(&b.archive, shown_range(&a.archive, roots_view(b.roots@)), b.entry_list@)
                                    && final(self).error_msg@ == old(self).error_msg@
                            } else {
                                b.entry_list == a.entry_list && final(self).error_msg@ == Some(
                                    arx_error_text(read_range_error()),
                                )
                            }
                        },
                        _ => {
                            &&& b == a
                            &&& final(self).error_msg == old(self).error_msg
                            &&& match action {
                                Action::Open(f) => final(self).status_message == old(self).status_message
                                    && (r matches Task::OpenFile(g) && same_file(g, f)),
                                Action::ExtractAll => final(self).status_message@ == extracting_text(a.path@)
                                    && r is ExtractAll,
                                Action::ExtractDir((range, name)) => final(self).status_message@ == extracting_text(
                                    a.path@,
                                ) && (r matches Task::ExtractDir(rr, n) && rr == range && n@ == name@),
                                Action::ExtractOne(f) => final(self).status_message@ == extracting_text(
                                    utf8_lossy(f.common.path@),
                                ) && (r matches Task::ExtractOne(g) && same_file(g, f)),
                                _ => false,
                            }
                        },
                    },
                },
            },
    {
        let action = match action {
            Action::LoadArchive(p) => {
                return self.load_archive(p);
            },
            other => other,
        };
        let mut archive = match self.archive.take() {
            None => {
                return Task::Idle;
            },
            Some(a) => a,
        };
        let task = match action {
            Action::Enter(new_root) => {
                let res = archive.enter_in(new_root);
                let r = match res {
                    Ok(()) => Ok(()),
                    Err(e) => Err(e.message()),
                };
                let _ = self.error_msg.catch(r);
                Task::Idle
            },
            Action::JumpTo(i) => {
                let res = archive.jump_off(i);
                let r = match res {
                    Ok(()) => Ok(()),
                    Err(e) => Err(e.message()),
                };
                let _ = self.error_msg.catch(r);
                Task::Idle
            },
            Action::Open(f) => Task::OpenFile(f),
            Action::ExtractAll => {
                self.status_message = status_text("Extracting ", archive.path.as_str());
                Task::ExtractAll
            },
            Action::ExtractDir((range, name)) => {
                self.status_message = status_text("Extracting ", archive.path.as_str());
                Task::ExtractDir(range, name)
            },
            Action::ExtractOne(f) => {
                let name = from_utf8_lossy(f.common.path.as_slice());
                self.status_message = status_text("Extracting ", name.as_str());
                Task::ExtractOne(f)
            },
            Action::LoadArchive(_) => Task::Idle,
        };
        self.archive = Some(archive);
        task
    }
}

} // verus!
