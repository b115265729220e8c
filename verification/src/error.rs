//! The errors of the library.
use vstd::prelude::*;
use crate::tree::Conflict;

verus! {

/// The three kinds of entries an archive holds.
#[derive(Clone, Copy, PartialEq, Eq, Structural, Debug)]
pub enum EntryType {
    File,
    Dir,
    Link,
}

impl EntryType {
    /// The name of the variant in the archive's layout.
    pub fn name(&self) -> (r: &'static str)
        ensures
            self matches EntryType::File ==> r@ == "file"@,
            self matches EntryType::Dir ==> r@ == "dir"@,
            self matches EntryType::Link ==> r@ == "link"@,
    {
        match self {
            EntryType::File => "file",
            EntryType::Dir => "dir",
            EntryType::Link => "link",
        }
    }
}

/// No entry of the archive has this path.
pub struct PathNotFound(pub String);

/// The archive is a container but not a valid arx archive.
pub struct ArxFormatError(pub &'static str);

/// An entry is not of the type the caller expected.
pub struct WrongType {
    pub expected: EntryType,
    pub actual: EntryType,
}

/// Entries that cannot stand together in one tree: adding the entry at `path`
/// clashes with what is already there.
pub struct IncoherentStructure {
    pub path: String,
    pub conflict: Conflict,
}

/// Why a path given as input cannot name an entry of the archive.
#[derive(Clone, Copy, PartialEq, Eq, Structural, Debug)]
pub enum InputErrorKind {
    /// The path is absolute.
    NonRelative,
    /// The path is not valid UTF-8.
    NonUtf8,
    /// The path uses a separator of the platform that is not `/`.
    BadSeparator,
    /// The path has no file name (it is empty or ends with `..`).
    NoFileName,
}

/// A path given as input that cannot name an entry of the archive.
pub struct InputError {
    pub path: String,
    pub kind: InputErrorKind,
}

/// An error of the base layer: the container itself, or its arx format.
pub enum BaseError {
    /// An error of the container, by its message.
    Jbk(String),
    ArxFormatError(ArxFormatError),
}

/// An error while looking an entry up.
pub enum QueryError {
    BaseError(BaseError),
    PathNotFound(PathNotFound),
}

/// An error while reading an archive.
pub enum ArxError {
    BaseError(BaseError),
    /// An input/output error, by its message.
    IoError(String),
    PathNotFound(PathNotFound),
    NotADirectory,
    IsADirectory,
    IsALink,
}

impl ArxError {
    /// The error a failed lookup is, while reading.
    pub fn from_query(value: QueryError) -> (r: ArxError)
        ensures
            value matches QueryError::BaseError(e) ==> r == ArxError::BaseError(e),
            value matches QueryError::PathNotFound(e) ==> r == ArxError::PathNotFound(e),
    {
        match value {
            QueryError::BaseError(e) => ArxError::BaseError(e),
            QueryError::PathNotFound(e) => ArxError::PathNotFound(e),
        }
    }
}

/// The message of an error while reading an archive.
pub open spec fn arx_error_text(e: ArxError) -> Seq<char> {
    match e {
        ArxError::BaseError(BaseError::Jbk(m)) => m@,
        ArxError::BaseError(BaseError::ArxFormatError(f)) => "Jbk archive is not a valid Arx archive : "@ + f.0@,
        ArxError::IoError(m) => m@,
        ArxError::PathNotFound(p) => "Path "@ + p.0@ + " not found in archive"@,
        ArxError::NotADirectory => "Not a directory"@,
        ArxError::IsADirectory => "Is a directory"@,
        ArxError::IsALink => "Is a link"@,
    }
}

impl ArxError {
    /// The message of the error.
    pub fn message(&self) -> (r: String)
        ensures
            r@ == arx_error_text(*self),
    {
        match self {
            ArxError::BaseError(BaseError::Jbk(m)) => m.clone(),
            ArxError::BaseError(BaseError::ArxFormatError(f)) => {
                let mut r = String::new();
                r.append("Jbk archive is not a valid Arx archive : ");
                r.append(f.0);
                proof {
                    assert(r@ =~= arx_error_text(*self));
                }
                r
            },
            ArxError::IoError(m) => m.clone(),
            ArxError::PathNotFound(p) => {
                let mut r = String::new();
                r.append("Path ");
                r.append(p.0.as_str());
                r.append(" not found in archive");
                proof {
                    assert(r@ =~= arx_error_text(*self));
                }
                r
            },
            ArxError::NotADirectory => "Not a directory".to_string(),
            ArxError::IsADirectory => "Is a directory".to_string(),
            ArxError::IsALink => "Is a link".to_string(),
        }
    }
}

/// An error while mounting an archive.
pub enum MountError {
    ArxError(ArxError),
    CannotMountRW,
}

/// An error of the file system view of an archive.
pub enum FsError {
    BaseError(BaseError),
    WrongType(WrongType),
    NotFound,
    MissingPack,
}

/// An error while extracting an archive.
pub enum ExtractError {
    ArxError(ArxError),
    /// The file at this path exists and the overwrite mode is `Error`.
    FileExists { path: String },
    /// The root given for the extraction is not a directory.
    RootNotDir { path: String },
}

/// An error while creating an archive.
pub enum CreatorError {
    /// An error of the container creator or of input/output, by its message.
    Jbk(String),
    IncoherentStructure(IncoherentStructure),
    InputError(InputError),
}

/// What a conflict is, as the message of an incoherent structure says it.
pub open spec fn conflict_text(c: Conflict) -> Seq<char> {
    match c {
        Conflict::ParentIsFile => "cannot add a entry to something which is not a directory (file)"@,
        Conflict::ParentIsLink => "cannot add a entry to something which is not a directory (link)"@,
        Conflict::DirOverFile => "cannot add a dir when file already exists"@,
        Conflict::DirOverLink => "cannot add a dir when link already exists"@,
        Conflict::FileExists => "cannot add a file when one already exists"@,
        Conflict::LinkExists => "cannot add a link when one already exists"@,
    }
}

/// What a conflict is, as the message of an incoherent structure says it.
fn conflict_str(c: Conflict) -> (r: &'static str)
    ensures
        r@ == conflict_text(c),
{
    match c {
        Conflict::ParentIsFile => "cannot add a entry to something which is not a directory (file)",
        Conflict::ParentIsLink => "cannot add a entry to something which is not a directory (link)",
        Conflict::DirOverFile => "cannot add a dir when file already exists",
        Conflict::DirOverLink => "cannot add a dir when link already exists",
        Conflict::FileExists => "cannot add a file when one already exists",
        Conflict::LinkExists => "cannot add a link when one already exists",
    }
}

/// The message of an incoherent structure.
pub open spec fn incoherent_text(e: IncoherentStructure) -> Seq<char> {
    "Incoherent structure : Adding "@ + e.path@ + ", "@ + conflict_text(e.conflict)
}

impl IncoherentStructure {
    /// The message of the error.
    pub fn message(&self) -> (r: String)
        ensures
            r@ == incoherent_text(*self),
    {
        let mut r = String::new();
        r.append("Incoherent structure : Adding ");
        r.append(self.path.as_str());
        r.append(", ");
        r.append(conflict_str(self.conflict));
        proof {
            assert(r@ =~= incoherent_text(*self));
        }
        r
    }
}

/// The message of an input path that cannot name an entry.
pub open spec fn input_text(e: InputError) -> Seq<char> {
    "Invalid input : "@ + match e.kind {
        InputErrorKind::NonRelative => e.path@ + " is not a relative path"@,
        InputErrorKind::NonUtf8 => "Non utf8 char in "@ + e.path@,
        InputErrorKind::BadSeparator => "Invalid path separator in "@ + e.path@,
        InputErrorKind::NoFileName => e.path@ + " has no file name"@,
    }
}

impl InputError {
    /// The message of the error.
    pub fn message(&self) -> (r: String)
        ensures
            r@ == input_text(*self),
    {
        let mut r = String::new();
        r.append("Invalid input : ");
        match self.kind {
            InputErrorKind::NonRelative => {
                r.append(self.path.as_str());
                r.append(" is not a relative path");
            },
            InputErrorKind::NonUtf8 => {
                r.append("Non utf8 char in ");
                r.append(self.path.as_str());
            },
            InputErrorKind::BadSeparator => {
                r.append("Invalid path separator in ");
                r.append(self.path.as_str());
            },
            InputErrorKind::NoFileName => {
                r.append(self.path.as_str());
                r.append(" has no file name");
            },
        }
        proof {
            assert(r@ =~= input_text(*self));
        }
        r
    }
}

/// The message of an error while creating an archive.
pub open spec fn creator_error_text(e: CreatorError) -> Seq<char> {
    match e {
        CreatorError::Jbk(m) => m@,
        CreatorError::IncoherentStructure(i) => incoherent_text(i),
        CreatorError::InputError(i) => input_text(i),
    }
}

impl CreatorError {
    /// The message of the error.
    pub fn message(&self) -> (r: String)
        ensures
            r@ == creator_error_text(*self),
    {
        match self {
            CreatorError::Jbk(m) => m.clone(),
            CreatorError::IncoherentStructure(i) => i.message(),
            CreatorError::InputError(i) => i.message(),
        }
    }
}

/// The message of an error while extracting.
pub open spec fn extract_error_text(e: ExtractError) -> Seq<char> {
    match e {
        ExtractError::ArxError(a) => arx_error_text(a),
        ExtractError::FileExists { path } => "File "@ + path@ + " already exists."@,
        ExtractError::RootNotDir { path } => path@ + " must be a directory"@,
    }
}

impl ExtractError {
    /// The message of the error.
    pub fn message(&self) -> (r: String)
        ensures
            r@ == extract_error_text(*self),
    {
        match self {
            ExtractError::ArxError(a) => a.message(),
            ExtractError::FileExists { path } => {
                let mut r = String::new();
                r.append("File ");
                r.append(path.as_str());
                r.append(" already exists.");
                proof {
                    assert(r@ =~= extract_error_text(*self));
                }
                r
            },
            ExtractError::RootNotDir { path } => {
                let mut r = path.clone();
                r.append(" must be a directory");
                proof {
                    assert(r@ =~= extract_error_text(*self));
                }
                r
            },
        }
    }
}

} // verus!
