//! Paths: those inside an archive (relative, `/`-separated, as the
//! `relative_path` crate reads them) and those of the file system (as
//! `std::path` reads them).
use vstd::prelude::*;
use crate::error::{InputError, InputErrorKind};

verus! {

// ---------------------------------------------------------------------------
// relative_path
// ---------------------------------------------------------------------------

/// The components of a relative path, each as the bytes of
/// `Component::as_str` (so `.` and `..` are components too).
pub uninterp spec fn rel_components(path: Seq<char>) -> Seq<Seq<u8>>;

/// The parent of a relative path.
pub uninterp spec fn rel_parent(path: Seq<char>) -> Option<Seq<char>>;

/// The last normal component of a relative path.
pub uninterp spec fn rel_file_name(path: Seq<char>) -> Option<Seq<u8>>;

/// The components of `base` are the first components of `path`.
pub open spec fn components_prefix(base: Seq<Seq<u8>>, path: Seq<Seq<u8>>) -> bool {
    base.len() <= path.len() && path.subrange(0, base.len() as int) == base
}

/// Why `RelativePath::from_path` refuses a path.
#[derive(Clone, Copy, PartialEq, Eq, Structural, Debug)]
pub enum FromPathErrorKind {
    NonRelative,
    NonUtf8,
    BadSeparator,
}

/// What `RelativePath::from_path` gives for a path.
pub uninterp spec fn rel_from_path(path: Seq<char>) -> Result<Seq<char>, FromPathErrorKind>;

/// What `RelativePathBuf::from_path` gives for a path.
pub uninterp spec fn rel_buf_from_path(path: Seq<char>) -> Result<Seq<char>, FromPathErrorKind>;

/// Calls `relative_path::RelativePath::components`. The result is named
/// `rel_components`; nothing more is claimed of it.
#[verifier::external_body]
pub(crate) fn path_components(path: &str) -> (r: Vec<Vec<u8>>)
    ensures
        r@.map_values(|v: Vec<u8>| v@) == rel_components(path@),
{
    relative_path::RelativePath::new(path).components().map(|c| c.as_str().as_bytes().to_vec()).collect()
}

/// Calls `relative_path::RelativePath::parent`. The result is named
/// `rel_parent`; as the crate's source shows, it is `None` exactly for the
/// empty path.
#[verifier::external_body]
pub(crate) fn path_parent(path: &str) -> (r: Option<String>)
    ensures
        match r {
            Some(p) => rel_parent(path@) == Some(p@),
            None => rel_parent(path@) is None,
        },
        r is None <==> path@.len() == 0,
{
    relative_path::RelativePath::new(path).parent().map(|p| p.as_str().to_string())
}

/// Calls `relative_path::RelativePath::file_name`. The result is named
/// `rel_file_name`.
#[verifier::external_body]
pub(crate) fn path_file_name(path: &str) -> (r: Option<Vec<u8>>)
    ensures
        match r {
            Some(n) => rel_file_name(path@) == Some(n@),
            None => rel_file_name(path@) is None,
        },
{
    relative_path::RelativePath::new(path).file_name().map(|n| n.as_bytes().to_vec())
}

/// Calls `relative_path::RelativePath::starts_with`: as the crate's source
/// shows, whether the components of `base` are the first components of
/// `path`, compared one by one.
#[verifier::external_body]
pub(crate) fn path_starts_with(path: &str, base: &str) -> (r: bool)
    ensures
        r == components_prefix(rel_components(base@), rel_components(path@)),
{
    relative_path::RelativePath::new(path).starts_with(base)
}

/// Calls `relative_path::RelativePath::from_path` on a file system path. The
/// result is named `rel_from_path`.
#[verifier::external_body]
pub(crate) fn relative_from_path(path: &str) -> (r: Result<String, FromPathErrorKind>)
    ensures
        match r {
            Ok(p) => rel_from_path(path@) == Ok::<Seq<char>, FromPathErrorKind>(p@),
            Err(k) => rel_from_path(path@) == Err::<Seq<char>, FromPathErrorKind>(k),
        },
{
    match relative_path::RelativePath::from_path(std::path::Path::new(path)) {
        Ok(p) => Ok(p.as_str().to_string()),
        Err(e) => Err(match e.kind() {
            relative_path::FromPathErrorKind::NonRelative => FromPathErrorKind::NonRelative,
            relative_path::FromPathErrorKind::NonUtf8 => FromPathErrorKind::NonUtf8,
            _ => FromPathErrorKind::BadSeparator,
        }),
    }
}

/// Calls `relative_path::RelativePathBuf::from_path` on a file system path.
/// The result is named `rel_buf_from_path`.
#[verifier::external_body]
pub(crate) fn relative_buf_from_path(path: &str) -> (r: Result<String, FromPathErrorKind>)
    ensures
        match r {
            Ok(p) => rel_buf_from_path(path@) == Ok::<Seq<char>, FromPathErrorKind>(p@),
            Err(k) => rel_buf_from_path(path@) == Err::<Seq<char>, FromPathErrorKind>(k),
        },
{
    match relative_path::RelativePathBuf::from_path(std::path::Path::new(path)) {
        Ok(p) => Ok(p.as_str().to_string()),
        Err(e) => Err(match e.kind() {
            relative_path::FromPathErrorKind::NonRelative => FromPathErrorKind::NonRelative,
            relative_path::FromPathErrorKind::NonUtf8 => FromPathErrorKind::NonUtf8,
            _ => FromPathErrorKind::BadSeparator,
        }),
    }
}

/// The input error for a path that cannot be made relative.
pub open spec fn input_error_kind(k: FromPathErrorKind) -> InputErrorKind {
    match k {
        FromPathErrorKind::NonRelative => InputErrorKind::NonRelative,
        FromPathErrorKind::NonUtf8 => InputErrorKind::NonUtf8,
        FromPathErrorKind::BadSeparator => InputErrorKind::BadSeparator,
    }
}

/// What `to_arx_path` gives for a file system path.
pub open spec fn to_arx_path_spec(path: Seq<char>) -> Result<Seq<char>, InputErrorKind> {
    match rel_from_path(path) {
        Ok(p) => Ok(p),
        Err(FromPathErrorKind::BadSeparator) => match rel_buf_from_path(path) {
            Ok(p) => Ok(p),
            Err(k) => Err(input_error_kind(k)),
        },
        Err(k) => Err(input_error_kind(k)),
    }
}

/// The path inside the archive for a (relative) file system path.
/// A path with a separator of the platform is converted; an absolute path
/// is refused.
pub fn to_arx_path(path: &str) -> (r: Result<String, InputError>)
    ensures
        match r {
            Ok(p) => to_arx_path_spec(path@) == Ok::<Seq<char>, InputErrorKind>(p@),
            Err(e) => to_arx_path_spec(path@) == Err::<Seq<char>, InputErrorKind>(e.kind) && e.path@
                == path@,
        },
{
    let ret = match relative_from_path(path) {
        Ok(p) => Ok(p),
        Err(FromPathErrorKind::BadSeparator) => relative_buf_from_path(path),
        Err(k) => Err(k),
    };
    match ret {
        Ok(p) => Ok(p),
        Err(k) => {
            let kind = match k {
                FromPathErrorKind::NonRelative => InputErrorKind::NonRelative,
                FromPathErrorKind::NonUtf8 => InputErrorKind::NonUtf8,
                FromPathErrorKind::BadSeparator => InputErrorKind::BadSeparator,
            };
            Err(InputError { path: path.to_owned(), kind })
        },
    }
}

// ---------------------------------------------------------------------------
// std::path
// ---------------------------------------------------------------------------

/// `Path::is_absolute` of a file system path.
pub uninterp spec fn fs_is_absolute(path: Seq<char>) -> bool;

/// The first component of a file system path, as `Path::components` gives it.
pub uninterp spec fn fs_first_component(path: Seq<char>) -> Option<Seq<char>>;

/// `Path::parent` of a file system path.
pub uninterp spec fn fs_parent(path: Seq<char>) -> Option<Seq<char>>;

/// `Path::strip_prefix` of a file system path.
pub uninterp spec fn fs_strip_prefix(path: Seq<char>, prefix: Seq<char>) -> Option<Seq<char>>;

/// Calls `std::path::Path::is_absolute`. The result is named `fs_is_absolute`.
#[verifier::external_body]
pub(crate) fn fs_path_is_absolute(path: &str) -> (r: bool)
    ensures
        r == fs_is_absolute(path@),
{
    std::path::Path::new(path).is_absolute()
}

/// Calls `std::path::Path::components` and takes the first one. The result is
/// named `fs_first_component`.
#[verifier::external_body]
pub(crate) fn fs_path_first_component(path: &str) -> (r: Option<String>)
    ensures
        match r {
            Some(c) => fs_first_component(path@) == Some(c@),
            None => fs_first_component(path@) is None,
        },
{
    std::path::Path::new(path).components().next().map(|c| c.as_os_str().to_string_lossy().into_owned())
}

/// Calls `std::path::Path::parent`. The result is named `fs_parent`.
#[verifier::external_body]
pub(crate) fn fs_path_parent(path: &str) -> (r: Option<String>)
    ensures
        match r {
            Some(p) => fs_parent(path@) == Some(p@),
            None => fs_parent(path@) is None,
        },
{
    std::path::Path::new(path).parent().map(|p| p.to_string_lossy().into_owned())
}

/// Calls `std::path::Path::strip_prefix`. The result is named
/// `fs_strip_prefix`.
#[verifier::external_body]
pub(crate) fn fs_path_strip_prefix(path: &str, prefix: &str) -> (r: Option<String>)
    ensures
        match r {
            Some(p) => fs_strip_prefix(path@, prefix@) == Some(p@),
            None => fs_strip_prefix(path@, prefix@) is None,
        },
{
    std::path::Path::new(path).strip_prefix(prefix).ok().map(|p| p.to_string_lossy().into_owned())
}

/// Removes from the paths found under an input path the part that is not
/// stored in the archive.
pub struct Trimer(pub Option<String>);

/// The prefix a trimer removes, for an input path.
pub open spec fn trimer_prefix(keep_parent: bool, p: Seq<char>) -> Option<Seq<char>> {
    if keep_parent {
        if fs_is_absolute(p) {
            fs_first_component(p)
        } else {
            None
        }
    } else {
        fs_parent(p)
    }
}

impl Trimer {
    /// For an input path `p`: keeping the parents removes only the root of an
    /// absolute path; otherwise the parent of `p` is removed.
    pub fn new(keep_parent: bool, p: &str) -> (r: Self)
        ensures
            match r.0 {
                Some(s) => trimer_prefix(keep_parent, p@) == Some(s@),
                None => trimer_prefix(keep_parent, p@) is None,
            },
    {
        if keep_parent {
            if fs_path_is_absolute(p) {
                Trimer(fs_path_first_component(p))
            } else {
                Trimer(None)
            }
        } else {
            Trimer(fs_path_parent(p))
        }
    }

    /// The part of `path` to store; `path` must be under the prefix.
    pub fn trim(&self, path: &str) -> (r: String)
        requires
            self.0 matches Some(prefix) ==> fs_strip_prefix(path@, prefix@) is Some,
        ensures
            match self.0 {
                Some(prefix) => fs_strip_prefix(path@, prefix@) == Some(r@),
                None => r@ == path@,
            },
    {
        match &self.0 {
            Some(prefix) => match fs_path_strip_prefix(path, prefix.as_str()) {
                Some(p) => p,
                None => path.to_owned(),
            },
            None => path.to_owned(),
        }
    }

    /// The part of `path` to store, or `None` where `path` is not under the
    /// prefix.
    pub fn try_trim(&self, path: &str) -> (r: Option<String>)
        ensures
            match self.0 {
                Some(prefix) => match fs_strip_prefix(path@, prefix@) {
                    Some(s) => r matches Some(x) && x@ == s,
                    None => r is None,
                },
                None => r matches Some(x) && x@ == path@,
            },
    {
        match &self.0 {
            Some(prefix) => match fs_path_strip_prefix(path, prefix.as_str()) {
                Some(_) => Some(self.trim(path)),
                None => None,
            },
            None => Some(self.trim(path)),
        }
    }
}

} // verus!
