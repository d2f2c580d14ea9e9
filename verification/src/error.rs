//! The error type returned by every fallible operation of the library.
use vstd::prelude::*;

use crate::text::{has_prefix, push_all};

verus! {

#[verifier::external_type_specification]
#[verifier::external_body]
pub struct ExIoError(std::io::Error);

#[verifier::external_type_specification]
#[verifier::external_body]
pub struct ExJsonError(serde_json::Error);

/// All error types that operations can return. Every variant carries a message for display.
#[derive(Debug, Clone)]
pub enum AppError {
    /// An I/O failure that does not fit a more specific category.
    IoError(String),
    /// A file or directory operation was rejected; it may need elevation.
    PermissionDenied(String),
    /// A database failure.
    DatabaseError(String),
    /// The requested game id is not in the database.
    GameNotFound(String),
    /// The requested mod id is not in the database.
    ModNotFound(String),
    /// The staging directory is already claimed by another game or mod.
    StagingDirConflict(String),
    /// The staging path is on another drive than the mod directory (a warning).
    CrossDriveWarning(String),
    /// A toggle journal entry is in a state that cannot be recovered automatically.
    JournalCorrupt(String),
    /// A JSON serialization or deserialization failure.
    SerializationError(String),
    /// Anything else.
    Unknown(String),
}

impl AppError {
    /// The message that the error carries.
    pub open spec fn message(self) -> Seq<char> {
        match self {
            AppError::IoError(m) => m@,
            AppError::PermissionDenied(m) => m@,
            AppError::DatabaseError(m) => m@,
            AppError::GameNotFound(m) => m@,
            AppError::ModNotFound(m) => m@,
            AppError::StagingDirConflict(m) => m@,
            AppError::CrossDriveWarning(m) => m@,
            AppError::JournalCorrupt(m) => m@,
            AppError::SerializationError(m) => m@,
            AppError::Unknown(m) => m@,
        }
    }

    /// The error for an I/O failure of the given kind whose `Display` text is `text`:
    /// a refused permission keeps its text, a missing file is reported as
    /// `File not found: <text>`, and any other failure is an `IoError` with its text.
    pub fn from_io_parts(kind: IoErrorKind, text: String) -> (r: AppError)
        ensures
            kind is PermissionDenied ==> r is PermissionDenied && r.message() == text@,
            kind is NotFound ==> r is IoError && r.message() == "File not found: "@ + text@,
            kind is Other ==> r is IoError && r.message() == text@,
    {
        match kind {
            IoErrorKind::PermissionDenied => AppError::PermissionDenied(text),
            IoErrorKind::NotFound => {
                let mut m = "File not found: ".to_string();
                push_all(&mut m, text.as_str());
                AppError::IoError(m)
            },
            IoErrorKind::Other => AppError::IoError(text),
        }
    }
}

/// The kinds of `std::io::ErrorKind` that the library tells apart.
#[derive(Debug, Clone, Copy, PartialEq, Eq)]
pub enum IoErrorKind {
    PermissionDenied,
    NotFound,
    Other,
}

/// Name for the kind of an I/O error, as `std::io::Error::kind` reports it, reduced to the
/// kinds the library tells apart.
pub uninterp spec fn io_kind_of(e: std::io::Error) -> IoErrorKind;

/// Name for the text of a JSON error, as its `Display` writes it.
pub uninterp spec fn json_error_message(e: serde_json::Error) -> Seq<char>;

/// Calls `std::io::Error::kind` and keeps the two kinds the library distinguishes. The
/// contract claims only that the kind is a function of the error, named `io_kind_of`.
#[verifier::external_body]
fn io_error_kind(e: &std::io::Error) -> (r: IoErrorKind)
    ensures
        r == io_kind_of(*e),
{
    match e.kind() {
        std::io::ErrorKind::PermissionDenied => IoErrorKind::PermissionDenied,
        std::io::ErrorKind::NotFound => IoErrorKind::NotFound,
        _ => IoErrorKind::Other,
    }
}

/// Calls `Display` of `std::io::Error`. Nothing is stated of the text: for an OS error it is
/// the operating system's message for the code, which the system and its language settings
/// decide, so it is not a function of the error value alone.
#[verifier::external_body]
fn io_error_text(e: &std::io::Error) -> String {
    e.to_string()
}

/// Calls `Display` of `serde_json::Error`. The contract claims only that the text is a
/// function of the error, named `json_error_message`.
#[verifier::external_body]
fn json_error_text(e: &serde_json::Error) -> (r: String)
    ensures
        r@ == json_error_message(*e),
{
    e.to_string()
}

impl From<std::io::Error> for AppError {
    /// Classifies the failure by its kind; see `AppError::from_io_parts`.
    fn from(e: std::io::Error) -> (r: Self)
        ensures
            io_kind_of(e) is PermissionDenied ==> r is PermissionDenied,
            !(io_kind_of(e) is PermissionDenied) ==> r is IoError,
            io_kind_of(e) is NotFound ==> has_prefix(r.message(), "File not found: "@),
    {
        let kind = io_error_kind(&e);
        let text = io_error_text(&e);
        let r = AppError::from_io_parts(kind, text);
        proof {
            if kind is NotFound {
                reveal_strlit("File not found: ");
                assert(r.message().take(16) =~= "File not found: "@);
            }
        }
        r
    }
}

impl vstd::std_specs::convert::FromSpecImpl<std::io::Error> for AppError {
    open spec fn obeys_from_spec() -> bool {
        false
    }

    open spec fn from_spec(v: std::io::Error) -> Self {
        arbitrary()
    }
}

impl From<serde_json::Error> for AppError {
    /// A JSON failure becomes a `SerializationError` carrying its text.
    fn from(e: serde_json::Error) -> (r: Self)
        ensures
            r is SerializationError,
            r.message() == json_error_message(e),
    {
        AppError::SerializationError(json_error_text(&e))
    }
}

impl vstd::std_specs::convert::FromSpecImpl<serde_json::Error> for AppError {
    open spec fn obeys_from_spec() -> bool {
        false
    }

    open spec fn from_spec(v: serde_json::Error) -> Self {
        arbitrary()
    }
}

} // verus!
