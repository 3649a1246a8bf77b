//! What the layout promises of the tree it has laid out.

use vstd::prelude::*;
use crate::geometry::{interior, lemma_interior_inside, Rect};
use crate::layout::{laid_out, levels_left, placed, weights};
use crate::packing::child_rect;
use crate::packing_laws::{lemma_child_in_area, lemma_children_disjoint};
use crate::tree::NodeView;

verus! {

/// The two trees hold the same entries in the same places: they differ in
/// rectangles at most.
pub open spec fn same_entries(a: NodeView, b: NodeView) -> bool
    decreases a,
{
    &&& a.name == b.name
    &&& a.path == b.path
    &&& a.is_dir == b.is_dir
    &&& a.loaded == b.loaded
    &&& a.status == b.status
    &&& a.children.len() == b.children.len()
    &&& forall|i: int|
        0 <= i < a.children.len() ==> same_entries(#[trigger] a.children[i], b.children[i])
}

/// A tree holds the same entries as itself.
pub proof fn lemma_same_entries_reflexive(a: NodeView)
    ensures
        same_entries(a, a),
    decreases a,
{
    assert forall|i: int| 0 <= i < a.children.len() implies same_entries(
        #[trigger] a.children[i],
        a.children[i],
    ) by {
        lemma_same_entries_reflexive(a.children[i]);
    }
}

/// Placing a node changes rectangles only: the node and all below it stay the
/// entries they were, in the order they were in.
pub proof fn lemma_placed_same_entries(node: NodeView, rect: Rect, depth: nat)
    ensures
        same_entries(node, placed(node, rect, depth)),
        placed(node, rect, depth).rect == rect,
    decreases levels_left(depth),
{
    let after = placed(node, rect, depth);
    assert forall|i: int| 0 <= i < node.children.len() implies same_entries(
        #[trigger] node.children[i],
        after.children[i],
    ) by {
        if node.is_dir && node.children.len() > 0 && depth < 2 {
            lemma_placed_same_entries(
                node.children[i],
                child_rect(weights(node.children), interior(rect), i),
                depth + 1,
            );
        } else {
            lemma_same_entries_reflexive(node.children[i]);
        }
    }
}

/// Every child that is laid out is given the rectangle that column packing finds
/// for its weight; that rectangle lies in the area, and shares no cell with the
/// rectangle of another child.
pub proof fn lemma_laid_out_in_area(nodes: Seq<NodeView>, area: Rect, depth: nat, i: int)
    requires
        area.fits(),
        0 <= i < nodes.len(),
    ensures
        laid_out(nodes, area, depth).len() == nodes.len(),
        same_entries(nodes[i], laid_out(nodes, area, depth)[i]),
        laid_out(nodes, area, depth)[i].rect == child_rect(weights(nodes), area, i),
        laid_out(nodes, area, depth)[i].rect.within(area),
        laid_out(nodes, area, depth)[i].rect.fits(),
        forall|j: int|
            0 <= j < nodes.len() && j != i ==> laid_out(nodes, area, depth)[i].rect.disjoint(
                #[trigger] laid_out(nodes, area, depth)[j].rect,
            ),
{
    let ws = weights(nodes);
    lemma_child_in_area(ws, area, i);
    lemma_placed_same_entries(nodes[i], child_rect(ws, area, i), depth);
    assert forall|j: int| 0 <= j < nodes.len() && j != i implies laid_out(
        nodes,
        area,
        depth,
    )[i].rect.disjoint(#[trigger] laid_out(nodes, area, depth)[j].rect) by {
        lemma_placed_same_entries(nodes[j], child_rect(ws, area, j), depth);
        if i < j {
            lemma_children_disjoint(ws, area, i, j);
        } else {
            lemma_children_disjoint(ws, area, j, i);
        }
    }
}

/// The children of a directory that is laid out with them lie inside its border.
pub proof fn lemma_nested_inside_border(node: NodeView, rect: Rect, depth: nat, k: int)
    requires
        rect.fits(),
        node.is_dir,
        depth < 2,
        0 <= k < node.children.len(),
    ensures
        placed(node, rect, depth).children.len() == node.children.len(),
        placed(node, rect, depth).children[k].rect.within(interior(rect)),
        forall|col: int, row: int| #[trigger]
            placed(node, rect, depth).children[k].rect.covers(col, row) ==> rect.covers(col, row),
{
    lemma_interior_inside(rect);
    lemma_laid_out_in_area(node.children, interior(rect), depth + 1, k);
}

/// Below the last level that is laid out every node keeps the rectangle it had.
pub proof fn lemma_deep_levels_untouched(node: NodeView, rect: Rect, depth: nat)
    requires
        depth >= 2,
    ensures
        placed(node, rect, depth).children == node.children,
{
}

} // verus!
