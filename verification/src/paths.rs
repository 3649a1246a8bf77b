//! What the library asks of `std::path`: the last component of a path, and a
//! path taken relative to a directory above it. Paths are held as strings, and
//! read as the platform reads them.

use vstd::prelude::*;

verus! {

/// What `std::path::Path::file_name` returns for the path written `path`: its
/// final component, or nothing where the path ends in `..` or has no component.
pub uninterp spec fn path_file_name(path: Seq<char>) -> Option<Seq<char>>;

/// What `std::path::Path::strip_prefix` returns for the path written `path` and
/// the base written `base`: the rest of `path` below `base`, or nothing where
/// `base` is not a prefix of `path`.
pub uninterp spec fn path_strip_prefix(path: Seq<char>, base: Seq<char>) -> Option<Seq<char>>;

/// The characters of an optional string.
pub open spec fn chars_of(text: Option<String>) -> Option<Seq<char>> {
    match text {
        Some(t) => Some(t@),
        None => None,
    }
}

/// Calls `std::path::Path::file_name` on `path`. Nothing is proved of the result:
/// the contract only gives it its name, `path_file_name(path@)`.
#[verifier::external_body]
fn file_name(path: &str) -> (name: Option<String>)
    ensures
        chars_of(name) == path_file_name(path@),
{
    match std::path::Path::new(path).file_name() {
        Some(name) => Some(name.to_string_lossy().into_owned()),
        None => None,
    }
}

/// Calls `std::path::Path::strip_prefix` on `path` with `base`. Nothing is proved
/// of the result: the contract only gives it its name,
/// `path_strip_prefix(path@, base@)`.
#[verifier::external_body]
pub(crate) fn strip_prefix(path: &str, base: &str) -> (rest: Option<String>)
    ensures
        chars_of(rest) == path_strip_prefix(path@, base@),
{
    match std::path::Path::new(path).strip_prefix(base) {
        Ok(rest) => Some(rest.to_string_lossy().into_owned()),
        Err(_) => None,
    }
}

/// The label under which the entry at `path` is shown, given the final component
/// that the path has: that component, or the whole path where it has none.
pub open spec fn label_of(path: Seq<char>, last: Option<Seq<char>>) -> Seq<char> {
    match last {
        Some(name) => name,
        None => path,
    }
}

/// The label under which the entry at `path` is shown.
pub open spec fn display_name(path: Seq<char>) -> Seq<char> {
    label_of(path, path_file_name(path))
}

/// Picks the label of the entry at `path` from the final component `last` that
/// was found for it.
pub fn pick_label(path: &str, last: Option<String>) -> (label: String)
    ensures
        label@ == label_of(path@, chars_of(last)),
{
    match last {
        Some(name) => name,
        None => path.to_owned(),
    }
}

/// The label under which the entry at `path` is shown: its final component, or
/// the whole path where it has none.
pub fn entry_label(path: &str) -> (label: String)
    ensures
        label@ == display_name(path@),
{
    pick_label(path, file_name(path))
}

/// The path shown for `path` in a tree rooted at `root`, given what is left of
/// `path` below `root`: that rest, or the whole path where `root` is not above it.
pub open spec fn shown_below(path: Seq<char>, rest: Option<Seq<char>>) -> Seq<char> {
    match rest {
        Some(r) => r,
        None => path,
    }
}

/// Picks the path shown for `path` from what is left of it below the root.
pub fn pick_shown(path: &str, rest: Option<String>) -> (shown: String)
    ensures
        shown@ == shown_below(path@, chars_of(rest)),
{
    match rest {
        Some(r) => r,
        None => path.to_owned(),
    }
}

/// The path shown for `path` in a tree rooted at `root`: `path` relative to
/// `root`, or `path` itself where `root` is not above it.
pub fn relative_label(path: &str, root: &str) -> (shown: String)
    ensures
        shown@ == shown_below(path@, path_strip_prefix(path@, root@)),
{
    pick_shown(path, strip_prefix(path, root))
}

} // verus!
