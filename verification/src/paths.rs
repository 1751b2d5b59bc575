use vstd::prelude::*;

verus! {

/// What `std::path::Path::with_extension` returns for a path and an extension.
pub uninterp spec fn path_with_extension(path: Seq<char>, extension: Seq<char>) -> Seq<char>;

/// What `std::path::Path::join` returns for a base path and a pushed path.
pub uninterp spec fn path_join(base: Seq<char>, pushed: Seq<char>) -> Seq<char>;

/// What `std::path::Path::parent` returns for a path.
pub uninterp spec fn path_parent(path: Seq<char>) -> Option<Seq<char>>;

/// What `std::path::Path::file_name` returns for a path.
pub uninterp spec fn path_file_name(path: Seq<char>) -> Option<Seq<char>>;

/// Calls `std::path::Path::with_extension`. Trusted to return the path that
/// `path_with_extension` names for these arguments; the text of a path made
/// from two valid texts is itself valid, so the conversion back loses nothing.
/// The call panics on an extension that holds a path separator, so such an
/// extension is left out ('/' everywhere, '\\' too on Windows).
#[verifier::external_body]
pub(crate) fn with_extension(path: &str, extension: &str) -> (r: String)
    requires
        forall|i: int|
            0 <= i < extension@.len() ==> extension@[i] != '/' && extension@[i] != '\\',
    ensures
        r@ == path_with_extension(path@, extension@),
{
    std::path::Path::new(path).with_extension(extension).to_string_lossy().into_owned()
}

/// Calls `std::path::Path::join`. Trusted to return the path that
/// `path_join` names for these arguments.
#[verifier::external_body]
pub(crate) fn join(base: &str, pushed: &str) -> (r: String)
    ensures
        r@ == path_join(base@, pushed@),
{
    std::path::Path::new(base).join(pushed).to_string_lossy().into_owned()
}

/// Calls `std::path::Path::parent`. Trusted to return what `path_parent`
/// names for this path: the parent as text, or nothing where the path has no
/// parent.
#[verifier::external_body]
pub(crate) fn parent(path: &str) -> (r: Option<String>)
    ensures
        match r {
            Some(dir) => path_parent(path@) == Some(dir@),
            None => path_parent(path@) is None,
        },
{
    match std::path::Path::new(path).parent() {
        Some(dir) => Some(dir.to_string_lossy().into_owned()),
        None => None,
    }
}

/// Calls `std::path::Path::file_name`. Trusted to return what
/// `path_file_name` names for this path: its last component as text, or
/// nothing where the path ends in `..` or is a root.
#[verifier::external_body]
pub(crate) fn file_name(path: &str) -> (r: Option<String>)
    ensures
        match r {
            Some(name) => path_file_name(path@) == Some(name@),
            None => path_file_name(path@) is None,
        },
{
    match std::path::Path::new(path).file_name() {
        Some(name) => Some(name.to_string_lossy().into_owned()),
        None => None,
    }
}

} // verus!
