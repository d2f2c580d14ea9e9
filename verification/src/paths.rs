//! Path operations of `std::path`, reached through trusted wrappers.
//!
//! Path parsing follows the conventions of the platform the crate is built for
//! (separators, drive prefixes), so the library does not restate it: each operation's
//! result is given a name, and the contracts of the library speak of those names.
use vstd::prelude::*;

verus! {

/// Name for the text of `Path::new(base).join(tail)`.
pub uninterp spec fn path_joined(base: Seq<char>, tail: Seq<char>) -> Seq<char>;

/// Name for the text of `Path::new(path).file_stem()`.
pub uninterp spec fn path_file_stem(path: Seq<char>) -> Option<Seq<char>>;

/// Name for the text of `Path::new(path).extension()`.
pub uninterp spec fn path_extension(path: Seq<char>) -> Option<Seq<char>>;

/// Name for the text of the first component of `Path::new(path)`
/// (`Path::components().next()`), if it has one.
pub uninterp spec fn path_first_component(path: Seq<char>) -> Option<Seq<char>>;

/// Calls `Path::join` and renders the result with `Path::display`. The contract claims only
/// that the text is a function of the two arguments, named `path_joined`; how std joins
/// (separator, absolute tails, drive prefixes) is left unstated.
#[verifier::external_body]
pub(crate) fn join_path(base: &str, tail: &str) -> (r: String)
    ensures
        r@ == path_joined(base@, tail@),
{
    std::path::Path::new(base).join(tail).display().to_string()
}

/// Calls `Path::file_stem` and converts the stem to text. The contract claims only that the
/// result is a function of the path, named `path_file_stem`; std's rules for the stem are
/// left unstated.
#[verifier::external_body]
pub(crate) fn file_stem(path: &str) -> (r: Option<String>)
    ensures
        r matches Some(s) ==> path_file_stem(path@) == Some(s@),
        r is None ==> path_file_stem(path@) is None,
{
    match std::path::Path::new(path).file_stem() {
        Some(s) => Some(s.to_string_lossy().into_owned()),
        None => None,
    }
}

/// Calls `Path::extension` and converts it to text. The contract claims only that the
/// result is a function of the path, named `path_extension`; std's rules for the extension
/// are left unstated.
#[verifier::external_body]
pub(crate) fn extension(path: &str) -> (r: Option<String>)
    ensures
        r matches Some(s) ==> path_extension(path@) == Some(s@),
        r is None ==> path_extension(path@) is None,
{
    match std::path::Path::new(path).extension() {
        Some(s) => Some(s.to_string_lossy().into_owned()),
        None => None,
    }
}

/// Calls `Path::components` and renders the first component, if there is one, with
/// `Component::as_os_str`. The contract claims only that the result is a function of the
/// path, named `path_first_component`; how std splits a path into components (separators,
/// drive prefixes, root) is left unstated.
#[verifier::external_body]
pub(crate) fn first_component(path: &str) -> (r: Option<String>)
    ensures
        r matches Some(s) ==> path_first_component(path@) == Some(s@),
        r is None ==> path_first_component(path@) is None,
{
    match std::path::Path::new(path).components().next() {
        Some(c) => Some(c.as_os_str().to_string_lossy().into_owned()),
        None => None,
    }
}

} // verus!
