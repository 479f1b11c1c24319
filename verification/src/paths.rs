//! Path operations on `String` paths.
//!
//! The library keeps file locations as `String`s. The handful of path
//! operations it needs are those of `std::path::Path`, which vstd does not
//! specify; each one is reached through a wrapper whose result is named
//! below, as a function of the textual paths it was given.
use vstd::prelude::*;

verus! {

/// What `Path::strip_prefix` returns for `path` and `base`: the remainder
/// when `base` is a whole-component prefix of `path`, none otherwise.
pub uninterp spec fn path_strip_prefix(path: Seq<char>, base: Seq<char>) -> Option<Seq<char>>;

/// What `Path::join` returns for `base` and `tail`.
pub uninterp spec fn path_join(base: Seq<char>, tail: Seq<char>) -> Seq<char>;

/// What `Path::is_absolute` returns for `path`.
pub uninterp spec fn path_is_absolute(path: Seq<char>) -> bool;

/// The components `Path::components` yields for `path`, each as text.
pub uninterp spec fn path_components(path: Seq<char>) -> Seq<Seq<char>>;

/// What `Path::extension` returns for `path`, as text.
pub uninterp spec fn path_extension(path: Seq<char>) -> Option<Seq<char>>;

/// What `Path::file_name` returns for `path`, as text.
pub uninterp spec fn path_file_name(path: Seq<char>) -> Option<Seq<char>>;

/// Whole-component prefix test. The documentation of `Path::strip_prefix`
/// says that it fails exactly when `Path::starts_with` is false.
pub open spec fn path_starts_with(path: Seq<char>, base: Seq<char>) -> bool {
    path_strip_prefix(path, base) is Some
}

/// Calls `Path::strip_prefix`; the result is the named remainder.
#[verifier::external_body]
pub(crate) fn strip_prefix(path: &str, base: &str) -> (r: Option<String>)
    ensures
        match r {
            Some(s) => path_strip_prefix(path@, base@) == Some(s@),
            None => path_strip_prefix(path@, base@) is None,
        },
{
    match std::path::Path::new(path).strip_prefix(base) {
        Ok(rest) => Some(rest.to_string_lossy().into_owned()),
        Err(_) => None,
    }
}

/// Calls `Path::starts_with`. Its documentation ties it to `strip_prefix`:
/// the prefix test holds exactly when stripping succeeds.
#[verifier::external_body]
pub(crate) fn starts_with(path: &str, base: &str) -> (b: bool)
    ensures
        b == path_starts_with(path@, base@),
{
    std::path::Path::new(path).starts_with(base)
}

/// Calls `Path::join`; the result is the named joined path.
#[verifier::external_body]
pub(crate) fn join(base: &str, tail: &str) -> (r: String)
    ensures
        r@ == path_join(base@, tail@),
{
    std::path::Path::new(base).join(tail).to_string_lossy().into_owned()
}

/// Calls `Path::is_absolute`.
#[verifier::external_body]
pub(crate) fn is_absolute(path: &str) -> (b: bool)
    ensures
        b == path_is_absolute(path@),
{
    std::path::Path::new(path).is_absolute()
}

/// Calls `Path::components`, each component as text.
#[verifier::external_body]
pub(crate) fn components(path: &str) -> (r: Vec<String>)
    ensures
        r@.map_values(|c: String| c@) == path_components(path@),
{
    let mut out = Vec::new();
    for c in std::path::Path::new(path).components() {
        out.push(c.as_os_str().to_string_lossy().into_owned());
    }
    out
}

/// Calls `Path::extension`, as text.
#[verifier::external_body]
pub(crate) fn extension(path: &str) -> (r: Option<String>)
    ensures
        match r {
            Some(s) => path_extension(path@) == Some(s@),
            None => path_extension(path@) is None,
        },
{
    match std::path::Path::new(path).extension() {
        Some(e) => Some(e.to_string_lossy().into_owned()),
        None => None,
    }
}

/// Calls `Path::file_name`, as text.
#[verifier::external_body]
pub(crate) fn file_name(path: &str) -> (r: Option<String>)
    ensures
        match r {
            Some(s) => path_file_name(path@) == Some(s@),
            None => path_file_name(path@) is None,
        },
{
    match std::path::Path::new(path).file_name() {
        Some(n) => Some(n.to_string_lossy().into_owned()),
        None => None,
    }
}

} // verus!
