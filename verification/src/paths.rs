//! Paths as text: the `std::path` operations the library needs, each
//! trusted to compute a named function of its arguments.
use vstd::prelude::*;

verus! {

/// `Path::parent` of a path, as text; empty when it has none.
pub uninterp spec fn path_parent(p: Seq<char>) -> Seq<char>;

/// `Path::file_stem` of a path, as text.
pub uninterp spec fn path_stem(p: Seq<char>) -> Option<Seq<char>>;

/// `Path::join` of a directory and a name, as text.
pub uninterp spec fn path_join(dir: Seq<char>, name: Seq<char>) -> Seq<char>;

/// `std::path::Path::parent`. Trusted: the result is the named parent.
#[verifier::external_body]
pub(crate) fn parent_of(p: &str) -> (r: String)
    ensures
        r@ == path_parent(p@),
{
    match std::path::Path::new(p).parent() {
        Some(d) => d.to_string_lossy().to_string(),
        None => String::new(),
    }
}

/// `std::path::Path::file_stem`. Trusted: the result is the named stem.
#[verifier::external_body]
pub(crate) fn stem_of(p: &str) -> (r: Option<String>)
    ensures
        match (r, path_stem(p@)) {
            (Some(a), Some(b)) => a@ == b,
            (None, None) => true,
            _ => false,
        },
{
    match std::path::Path::new(p).file_stem() {
        Some(s) => Some(s.to_string_lossy().to_string()),
        None => None,
    }
}

/// `std::path::Path::join`. Trusted: the result is the named join.
#[verifier::external_body]
pub(crate) fn join_of(dir: &str, name: &str) -> (r: String)
    ensures
        r@ == path_join(dir@, name@),
{
    std::path::Path::new(dir).join(name).to_string_lossy().to_string()
}

/// Whether a path is absolute (`Path::is_absolute`).
pub uninterp spec fn path_absolute(p: Seq<char>) -> bool;

/// `std::path::Path::is_absolute`. Trusted: the answer is the named one.
#[verifier::external_body]
pub(crate) fn is_absolute(p: &str) -> (r: bool)
    ensures
        r == path_absolute(p@),
{
    std::path::Path::new(p).is_absolute()
}

} // verus!
