//! What the command line gives: the compression and the concat mode of the
//! archive to create.
use vstd::prelude::*;

verus! {

/// The first index at which `s` holds `c`, or -1.
pub open spec fn first_index_of(s: Seq<char>, c: char) -> int
    decreases s.len(),
{
    if s.len() == 0 {
        -1
    } else if s[0] == c {
        0
    } else {
        let k = first_index_of(s.drop_first(), c);
        if k < 0 {
            -1
        } else {
            k + 1
        }
    }
}

/// `str::split_once` on `=`: what is before the first `=` and what is
/// after it, or none if `s` holds no `=`.
#[verifier::external_body]
fn split_once_eq(s: &str) -> (r: Option<(&str, &str)>)
    ensures
        ({
            let i = first_index_of(s@, '=');
            match r {
                Some((a, b)) => i >= 0 && a@ == s@.subrange(0, i) && b@ == s@.subrange(i + 1, s@.len() as int),
                None => i < 0,
            }
        }),
{
    s.split_once('=')
}

/// `c` with an ASCII upper case letter made lower case.
pub open spec fn ascii_lower(c: char) -> char {
    if 'A' <= c <= 'Z' {
        ((c as u32) + 32) as char
    } else {
        c
    }
}

/// `str::to_ascii_lowercase`: every ASCII upper case letter made lower case,
/// every other character kept.
#[verifier::external_body]
fn to_ascii_lowercase(s: &str) -> (r: String)
    ensures
        r@ == s@.map_values(|c: char| ascii_lower(c)),
{
    s.to_ascii_lowercase()
}

/// An ASCII decimal digit.
pub open spec fn is_ascii_digit(c: char) -> bool {
    '0' <= c <= '9'
}

/// The value of a string of decimal digits.
pub open spec fn digits_value(d: Seq<char>) -> nat
    decreases d.len(),
{
    if d.len() == 0 {
        0
    } else {
        digits_value(d.drop_last()) * 10 + (d.last() as nat - '0' as nat) as nat
    }
}

/// At least one character, all decimal digits.
pub open spec fn all_digits(d: Seq<char>) -> bool {
    d.len() > 0 && forall|i: int| 0 <= i < d.len() ==> is_ascii_digit(#[trigger] d[i])
}

/// The integer `s` writes, as `str::parse` documents it: an optional `+`
/// (and for a signed type an optional `-`) followed by decimal digits only.
pub open spec fn integer_literal(s: Seq<char>, signed: bool) -> Option<int> {
    if s.len() > 0 && s[0] == '+' {
        if all_digits(s.drop_first()) { Some(digits_value(s.drop_first()) as int) } else { None }
    } else if signed && s.len() > 0 && s[0] == '-' {
        if all_digits(s.drop_first()) { Some(-(digits_value(s.drop_first()) as int)) } else { None }
    } else if all_digits(s) {
        Some(digits_value(s) as int)
    } else {
        None
    }
}

/// What parsing a level from `s` into `[min, max]` gives: the level, or the
/// message of the error. A number out of the range is too large or too
/// small; an empty string is refused as such; for any other string that is
/// no number, the message is `other`.
pub open spec fn level_parse(s: Seq<char>, min: int, max: int, signed: bool, other: Seq<char>) -> Result<int, Seq<char>> {
    match integer_literal(s, signed) {
        Some(v) => if v < min {
            Err("number too small to fit in target type"@)
        } else if v > max {
            Err("number too large to fit in target type"@)
        } else {
            Ok(v)
        },
        None => if s.len() == 0 {
            Err("cannot parse integer from empty string"@)
        } else {
            Err(other)
        },
    }
}

/// The message of parsing as an lz4 level a string that is neither empty
/// nor a number: why `str::parse` refused it.
pub uninterp spec fn lz4_level_error(s: Seq<char>) -> Seq<char>;

/// The message of parsing as an lzma level a string that is neither empty
/// nor a number: why `str::parse` refused it.
pub uninterp spec fn lzma_level_error(s: Seq<char>) -> Seq<char>;

/// The message of parsing as a zstd level a string that is neither empty
/// nor a number: why `str::parse` refused it.
pub uninterp spec fn zstd_level_error(s: Seq<char>) -> Seq<char>;

/// A parsed level, its message as text.
pub open spec fn level_result_u32(r: Result<u32, String>) -> Result<int, Seq<char>> {
    match r {
        Ok(v) => Ok(v as int),
        Err(m) => Err(m@),
    }
}

/// A parsed level, its message as text.
pub open spec fn level_result_i32(r: Result<i32, String>) -> Result<int, Seq<char>> {
    match r {
        Ok(v) => Ok(v as int),
        Err(m) => Err(m@),
    }
}

/// `deranged::RangedU32::<0, 15>::from_str`, the level of lz4: `str::parse`
/// into a `u32`, then the range check; the message is the `Display` of
/// deranged's `ParseIntError`.
#[verifier::external_body]
fn parse_lz4_level(s: &str) -> (r: Result<u32, String>)
    ensures
        level_result_u32(r) == level_parse(s@, 0, 15, false, lz4_level_error(s@)),
{
    match s.parse::<deranged::RangedU32<0, 15>>() {
        Ok(v) => Ok(v.get()),
        Err(e) => Err(e.to_string()),
    }
}

/// `deranged::RangedU32::<0, 9>::from_str`, the level of lzma: `str::parse`
/// into a `u32`, then the range check.
#[verifier::external_body]
fn parse_lzma_level(s: &str) -> (r: Result<u32, String>)
    ensures
        level_result_u32(r) == level_parse(s@, 0, 9, false, lzma_level_error(s@)),
{
    match s.parse::<deranged::RangedU32<0, 9>>() {
        Ok(v) => Ok(v.get()),
        Err(e) => Err(e.to_string()),
    }
}

/// `deranged::RangedI32::<-22, 22>::from_str`, the level of zstd:
/// `str::parse` into an `i32`, then the range check.
#[verifier::external_body]
fn parse_zstd_level(s: &str) -> (r: Result<i32, String>)
    ensures
        level_result_i32(r) == level_parse(s@, -22, 22, true, zstd_level_error(s@)),
{
    match s.parse::<deranged::RangedI32<-22, 22>>() {
        Ok(v) => Ok(v.get()),
        Err(e) => Err(e.to_string()),
    }
}

/// How the contents of an archive are compressed, with the level.
#[derive(Clone, Copy, PartialEq, Eq, Structural, Debug)]
pub enum Compression {
    Uncompressed,
    /// A level from 0 to 15.
    Lz4(u32),
    /// A level from 0 to 9.
    Lzma(u32),
    /// A level from -22 to 22.
    Zstd(i32),
}

/// The level of lz4 when none is given.
pub const LZ4_DEFAULT_LEVEL: u32 = 3;

/// The level of lzma when none is given.
pub const LZMA_DEFAULT_LEVEL: u32 = 9;

/// The level of zstd when none is given.
pub const ZSTD_DEFAULT_LEVEL: i32 = 5;

/// Why a compression given on the command line is refused.
pub enum InvalidCompression {
    /// The level is not valid for the algorithm; the message says why.
    Level(String),
    /// No algorithm has this name (made lower case).
    Algorithm(String),
}

/// `s` holds exactly the characters of `w`.
fn is_word(s: &String, w: &str) -> (r: bool)
    ensures
        r == (s@ == w@),
{
    *s == w.to_owned()
}

/// A level parsed for an algorithm: the level, or the message.
pub open spec fn level_of(
    parsed: Result<int, Seq<char>>,
    r: Result<Compression, InvalidCompression>,
    make: spec_fn(int) -> Compression,
) -> bool {
    match parsed {
        Ok(v) => r == Ok::<Compression, InvalidCompression>(make(v)),
        Err(m) => r matches Err(InvalidCompression::Level(e)) && e@ == m,
    }
}

/// Parses the compression given on the command line: an algorithm, in any
/// case, and for all but `none` an optional level after a `=`.
pub fn compression_arg_parser(s: &str) -> (r: Result<Compression, InvalidCompression>)
    ensures
        ({
            let i = first_index_of(s@, '=');
            let name = if i < 0 { s@ } else { s@.subrange(0, i) };
            let level = if i < 0 { None } else { Some(s@.subrange(i + 1, s@.len() as int)) };
            let lower = name.map_values(|c: char| ascii_lower(c));
            if lower == "none"@ {
                r == Ok::<Compression, InvalidCompression>(Compression::Uncompressed)
            } else if lower == "lz4"@ {
                match level {
                    None => r == Ok::<Compression, InvalidCompression>(Compression::Lz4(LZ4_DEFAULT_LEVEL)),
                    Some(l) => level_of(level_parse(l, 0, 15, false, lz4_level_error(l)), r, |v: int| Compression::Lz4(v as u32)),
                }
            } else if lower == "lzma"@ {
                match level {
                    None => r == Ok::<Compression, InvalidCompression>(Compression::Lzma(LZMA_DEFAULT_LEVEL)),
                    Some(l) => level_of(level_parse(l, 0, 9, false, lzma_level_error(l)), r, |v: int| Compression::Lzma(v as u32)),
                }
            } else if lower == "zstd"@ {
                match level {
                    None => r == Ok::<Compression, InvalidCompression>(Compression::Zstd(ZSTD_DEFAULT_LEVEL)),
                    Some(l) => level_of(level_parse(l, -22, 22, true, zstd_level_error(l)), r, |v: int| Compression::Zstd(v as i32)),
                }
            } else {
                r matches Err(InvalidCompression::Algorithm(a)) && a@ == lower
            }
        }),
{
    let (name, level) = match split_once_eq(s) {
        Some((a, l)) => (a, Some(l)),
        None => (s, None),
    };
    let compression = to_ascii_lowercase(name);
    if is_word(&compression, "none") {
        Ok(Compression::Uncompressed)
    } else if is_word(&compression, "lz4") {
        match level {
            None => Ok(Compression::Lz4(LZ4_DEFAULT_LEVEL)),
            Some(l) => match parse_lz4_level(l) {
                Ok(v) => Ok(Compression::Lz4(v)),
                Err(m) => Err(InvalidCompression::Level(m)),
            },
        }
    } else if is_word(&compression, "lzma") {
        match level {
            None => Ok(Compression::Lzma(LZMA_DEFAULT_LEVEL)),
            Some(l) => match parse_lzma_level(l) {
                Ok(v) => Ok(Compression::Lzma(v)),
                Err(m) => Err(InvalidCompression::Level(m)),
            },
        }
    } else if is_word(&compression, "zstd") {
        match level {
            None => Ok(Compression::Zstd(ZSTD_DEFAULT_LEVEL)),
            Some(l) => match parse_zstd_level(l) {
                Ok(v) => Ok(Compression::Zstd(v)),
                Err(m) => Err(InvalidCompression::Level(m)),
            },
        }
    } else {
        Err(InvalidCompression::Algorithm(compression))
    }
}

/// The flags that select how the archive is split in files; at most one is
/// set.
#[derive(Clone, Copy, PartialEq, Eq, Structural, Debug)]
pub struct ConcatMode {
    /// Create only one file (the default).
    pub one_file: bool,
    /// Create two files: one with the contents, one with the rest.
    pub two_files: bool,
    /// Create one file per pack.
    pub multiple_files: bool,
}

impl crate::create::ConcatMode {
    /// The concat mode the flags select; without flags, one file.
    pub fn from_flags(flags: Option<ConcatMode>) -> (r: crate::create::ConcatMode)
        requires
            flags matches Some(f) ==> f.one_file || f.two_files || f.multiple_files,
        ensures
            r == match flags {
                None => crate::create::ConcatMode::OneFile,
                Some(f) => if f.one_file {
                    crate::create::ConcatMode::OneFile
                } else if f.two_files {
                    crate::create::ConcatMode::TwoFiles
                } else {
                    crate::create::ConcatMode::NoConcat
                },
            },
    {
        match flags {
            None => crate::create::ConcatMode::OneFile,
            Some(f) => {
                if f.one_file {
                    crate::create::ConcatMode::OneFile
                } else if f.two_files {
                    crate::create::ConcatMode::TwoFiles
                } else {
                    crate::create::ConcatMode::NoConcat
                }
            },
        }
    }
}

} // verus!
