//! The source-control status of an entry and the colour it is shown in.

use vstd::prelude::*;

verus! {

/// What source control says of an entry.
#[derive(Clone, Copy, Debug, PartialEq, Eq, Structural)]
pub enum Status {
    Untouched,
    Added,
    Modified,
    Deleted,
}

/// The colours the panels are drawn in.
#[derive(Clone, Copy, Debug, PartialEq, Eq, Structural)]
pub enum Color {
    White,
    Green,
    Yellow,
    Red,
    Magenta,
}

/// A file that the index holds and the last commit does not.
pub const INDEX_NEW: u32 = 0x1;

/// A file that the index holds otherwise than the last commit.
pub const INDEX_MODIFIED: u32 = 0x2;

/// A file that the last commit holds and the index does not.
pub const INDEX_DELETED: u32 = 0x4;

/// A file of the working copy that the index does not hold.
pub const WT_NEW: u32 = 0x80;

/// A file that the working copy holds otherwise than the index.
pub const WT_MODIFIED: u32 = 0x100;

/// A file that the index holds and the working copy does not.
pub const WT_DELETED: u32 = 0x200;

/// `git2::Status::is_index_new`, asked of the status whose bits are `bits`: it
/// says whether the bit `INDEX_NEW` is set.
#[verifier::external_body]
fn is_index_new(bits: u32) -> (set: bool)
    ensures
        set == (bits & INDEX_NEW != 0),
{
    git2::Status::from_bits_truncate(bits).is_index_new()
}

/// `git2::Status::is_wt_new`, asked of the status whose bits are `bits`: it says
/// whether the bit `WT_NEW` is set.
#[verifier::external_body]
fn is_wt_new(bits: u32) -> (set: bool)
    ensures
        set == (bits & WT_NEW != 0),
{
    git2::Status::from_bits_truncate(bits).is_wt_new()
}

/// `git2::Status::is_index_modified`, asked of the status whose bits are `bits`:
/// it says whether the bit `INDEX_MODIFIED` is set.
#[verifier::external_body]
fn is_index_modified(bits: u32) -> (set: bool)
    ensures
        set == (bits & INDEX_MODIFIED != 0),
{
    git2::Status::from_bits_truncate(bits).is_index_modified()
}

/// `git2::Status::is_wt_modified`, asked of the status whose bits are `bits`: it
/// says whether the bit `WT_MODIFIED` is set.
#[verifier::external_body]
fn is_wt_modified(bits: u32) -> (set: bool)
    ensures
        set == (bits & WT_MODIFIED != 0),
{
    git2::Status::from_bits_truncate(bits).is_wt_modified()
}

/// `git2::Status::is_index_deleted`, asked of the status whose bits are `bits`:
/// it says whether the bit `INDEX_DELETED` is set.
#[verifier::external_body]
fn is_index_deleted(bits: u32) -> (set: bool)
    ensures
        set == (bits & INDEX_DELETED != 0),
{
    git2::Status::from_bits_truncate(bits).is_index_deleted()
}

/// `git2::Status::is_wt_deleted`, asked of the status whose bits are `bits`: it
/// says whether the bit `WT_DELETED` is set.
#[verifier::external_body]
fn is_wt_deleted(bits: u32) -> (set: bool)
    ensures
        set == (bits & WT_DELETED != 0),
{
    git2::Status::from_bits_truncate(bits).is_wt_deleted()
}

/// What a set of status flags says of an entry. Where the flags say more than
/// one thing, new wins over changed and changed over removed; no flag of these
/// leaves the entry untouched.
pub open spec fn classified(bits: u32) -> Status {
    if bits & INDEX_NEW != 0 || bits & WT_NEW != 0 {
        Status::Added
    } else if bits & INDEX_MODIFIED != 0 || bits & WT_MODIFIED != 0 {
        Status::Modified
    } else if bits & INDEX_DELETED != 0 || bits & WT_DELETED != 0 {
        Status::Deleted
    } else {
        Status::Untouched
    }
}

/// What the flags found for an entry, if any were, say of it.
pub open spec fn status_of(flags: Option<u32>) -> Status {
    match flags {
        Some(bits) => classified(bits),
        None => Status::Untouched,
    }
}

/// The colour an entry of status `status` is shown in.
pub open spec fn shown_in(status: Status) -> Color {
    match status {
        Status::Added => Color::Green,
        Status::Modified => Color::Yellow,
        Status::Deleted => Color::Red,
        Status::Untouched => Color::White,
    }
}

/// What the status flags `bits` say of an entry.
pub fn classify(bits: u32) -> (status: Status)
    ensures
        status == classified(bits),
{
    if is_index_new(bits) || is_wt_new(bits) {
        Status::Added
    } else if is_index_modified(bits) || is_wt_modified(bits) {
        Status::Modified
    } else if is_index_deleted(bits) || is_wt_deleted(bits) {
        Status::Deleted
    } else {
        Status::Untouched
    }
}

/// The colour an entry of status `status` is shown in.
pub fn status_color(status: Status) -> (color: Color)
    ensures
        color == shown_in(status),
{
    match status {
        Status::Added => Color::Green,
        Status::Modified => Color::Yellow,
        Status::Deleted => Color::Red,
        Status::Untouched => Color::White,
    }
}

/// The colour for an entry of which source control found the flags `status`, or
/// found nothing.
pub fn color_for_git_status(status: Option<u32>) -> (color: Color)
    ensures
        color == shown_in(status_of(status)),
{
    match status {
        Some(bits) => status_color(classify(bits)),
        None => Color::White,
    }
}

} // verus!
