//! What the moves of the cursor keep true.

use vstd::prelude::*;
use crate::navigation::{
    can_enter, consistent, moved_down, moved_into, moved_out, moved_up, stepped, viewed, Command,
    Cursor,
};
use crate::tree::{well_formed, with_listing, NodeView, Probe};
use crate::walk::{grafted, resolve, valid_path};

verus! {

/// A valid path with one more index that names a child of the node it leads to
/// is valid, and leads to that child.
pub proof fn lemma_resolve_push(root: NodeView, path: Seq<usize>, index: usize)
    requires
        valid_path(root, path),
        index < resolve(root, path).children.len(),
    ensures
        valid_path(root, path.push(index)),
        resolve(root, path.push(index)) == resolve(root, path).children[index as int],
    decreases path.len(),
{
    let longer = path.push(index);
    if path.len() == 0 {
        assert(longer.drop_first() =~= Seq::<usize>::empty());
        assert(valid_path(root.children[index as int], longer.drop_first()));
        assert(resolve(root.children[index as int], longer.drop_first())
            == root.children[index as int]);
    } else {
        assert(longer.drop_first() =~= path.drop_first().push(index));
        lemma_resolve_push(root.children[path[0] as int], path.drop_first(), index);
    }
}

/// A valid path without its last index is valid, and that index names a child of
/// the node it leads to.
pub proof fn lemma_resolve_pop(root: NodeView, path: Seq<usize>)
    requires
        valid_path(root, path),
        path.len() > 0,
    ensures
        valid_path(root, path.drop_last()),
        path.last() < resolve(root, path.drop_last()).children.len(),
        resolve(root, path) == resolve(root, path.drop_last()).children[path.last() as int],
    decreases path.len(),
{
    let shorter = path.drop_last();
    if path.len() == 1 {
        assert(path.drop_first() =~= Seq::<usize>::empty());
        assert(shorter =~= Seq::<usize>::empty());
        assert(resolve(root.children[path[0] as int], path.drop_first())
            == root.children[path[0] as int]);
    } else {
        assert(shorter.drop_first() =~= path.drop_first().drop_last());
        lemma_resolve_pop(root.children[path[0] as int], path.drop_first());
    }
}

/// Whatever the command, a cursor that fits the tree fits it afterwards.
pub proof fn lemma_step_keeps_consistent(root: NodeView, cursor: Cursor, command: Command)
    requires
        consistent(root, cursor),
    ensures
        consistent(root, stepped(root, cursor, command)),
{
    let after = stepped(root, cursor, command);
    match command {
        Command::MoveInto => {
            if can_enter(root, cursor) {
                lemma_resolve_push(root, cursor.path, cursor.selection.last());
            }
        },
        Command::MoveOut => {
            if cursor.path.len() > 0 {
                lemma_resolve_pop(root, cursor.path);
                assert(after.selection.last() == cursor.path.last());
            }
        },
        _ => {},
    }
}

/// A step up or down leaves the viewed directory as it is and moves the
/// highlight by one child at most; where the directory has children, the
/// highlight stays on one of them, and a step down from the last child or up from
/// the first changes nothing.
pub proof fn lemma_highlight_in_range(root: NodeView, cursor: Cursor, down: bool)
    requires
        consistent(root, cursor),
        viewed(root, cursor).children.len() <= usize::MAX,
    ensures
        ({
            let after = if down {
                moved_down(root, cursor)
            } else {
                moved_up(cursor)
            };
            let count = viewed(root, cursor).children.len();
            &&& after.path == cursor.path
            &&& after.selection.len() == cursor.selection.len()
            &&& count > 0 ==> 0 <= after.selection.last() <= count - 1
            &&& count == 0 ==> after == cursor
            &&& after.selection.last() == if down {
                if cursor.selection.last() + 1 < count {
                    cursor.selection.last() + 1
                } else {
                    cursor.selection.last() as int
                }
            } else {
                if cursor.selection.last() > 0 {
                    cursor.selection.last() - 1
                } else {
                    0
                }
            }
        }),
{
}

/// A step into a file, or where nothing is highlighted, changes nothing.
pub proof fn lemma_into_file_is_noop(root: NodeView, cursor: Cursor)
    requires
        !can_enter(root, cursor),
    ensures
        moved_into(root, cursor) == cursor,
{
}

/// A step out at the root changes nothing.
pub proof fn lemma_out_at_root_is_noop(cursor: Cursor)
    requires
        cursor.path.len() == 0,
    ensures
        moved_out(cursor) == cursor,
{
}

/// A step into a directory and a step out again bring the cursor back.
pub proof fn lemma_into_then_out(root: NodeView, cursor: Cursor)
    requires
        can_enter(root, cursor),
    ensures
        moved_out(moved_into(root, cursor)) == cursor,
{
    let inside = moved_into(root, cursor);
    assert(inside.path.drop_last() =~= cursor.path);
    assert(inside.selection.drop_last() =~= cursor.selection);
}

/// Listing a directory of a well-formed tree leaves every valid path valid. The
/// node a path leads to keeps the number of its children, unless it had none.
pub proof fn lemma_listing_keeps_paths(
    root: NodeView,
    at: Seq<usize>,
    entries: Seq<Probe>,
    path: Seq<usize>,
)
    requires
        well_formed(root),
        valid_path(root, at),
        valid_path(root, path),
    ensures
        valid_path(grafted(root, at, with_listing(resolve(root, at), entries)), path),
        resolve(grafted(root, at, with_listing(resolve(root, at), entries)), path).children.len()
            == resolve(root, path).children.len() || resolve(root, path).children.len() == 0,
    decreases path.len(),
{
    if at.len() > 0 && path.len() > 0 && path[0] == at[0] {
        lemma_listing_keeps_paths(
            root.children[at[0] as int],
            at.drop_first(),
            entries,
            path.drop_first(),
        );
    }
}

/// Listing a directory of a well-formed tree leaves a cursor that fits the tree
/// fitting: the tree only grows where the cursor has not been.
pub proof fn lemma_listing_keeps_cursor(
    root: NodeView,
    cursor: Cursor,
    at: Seq<usize>,
    entries: Seq<Probe>,
)
    requires
        well_formed(root),
        consistent(root, cursor),
        valid_path(root, at),
    ensures
        consistent(grafted(root, at, with_listing(resolve(root, at), entries)), cursor),
{
    lemma_listing_keeps_paths(root, at, entries, cursor.path);
}

} // verus!
