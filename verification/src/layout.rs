//! Laying out the children of a directory, and theirs, as nested panels.

use vstd::prelude::*;
use crate::geometry::{inner_rect, interior, lemma_interior_inside, Rect};
use crate::packing::{as_weights, child_rect, pack_columns, MAX_WEIGHT};
use crate::packing_laws::lemma_child_in_area;
use crate::tree::{lemma_model_children, model, models, well_formed, FileNode, NodeView};

verus! {

/// How much room an entry asks for in its column: a file one row, a directory a
/// row for itself and one for each child it is known to have, and three rows at
/// least.
pub open spec fn weight(node: NodeView) -> nat {
    if node.is_dir {
        if node.children.len() + 1 > 3 {
            node.children.len() + 1
        } else {
            3
        }
    } else {
        1
    }
}

/// The weights of `nodes`, in their order.
pub open spec fn weights(nodes: Seq<NodeView>) -> Seq<nat> {
    Seq::new(nodes.len(), |i: int| weight(nodes[i]))
}

/// How many levels below the viewed directory are laid out: its children, their
/// children and the children of those.
pub open spec fn levels_left(depth: nat) -> nat {
    if depth < 3 {
        (3 - depth) as nat
    } else {
        0
    }
}

/// `node` placed at `rect`. A directory with children that lies fewer than two
/// levels below the first has them laid out inside its border; deeper children
/// keep the rectangles they had.
pub open spec fn placed(node: NodeView, rect: Rect, depth: nat) -> NodeView
    decreases levels_left(depth), 0nat,
{
    NodeView {
        rect,
        children: if node.is_dir && node.children.len() > 0 && depth < 2 {
            laid_out(node.children, interior(rect), depth + 1)
        } else {
            node.children
        },
        ..node
    }
}

/// `nodes` laid out in `area` by column packing, each with its own children laid
/// out inside it as far as `depth` allows.
pub open spec fn laid_out(nodes: Seq<NodeView>, area: Rect, depth: nat) -> Seq<NodeView>
    decreases levels_left(depth), 1nat,
{
    Seq::new(
        nodes.len(),
        |i: int| placed(nodes[i], child_rect(weights(nodes), area, i), depth),
    )
}

/// Placing a well-formed node leaves it well-formed: the layout lists nothing and
/// drops nothing.
pub proof fn lemma_placed_well_formed(node: NodeView, rect: Rect, depth: nat)
    requires
        well_formed(node),
    ensures
        well_formed(placed(node, rect, depth)),
    decreases levels_left(depth),
{
    let after = placed(node, rect, depth);
    assert forall|i: int| 0 <= i < after.children.len() implies well_formed(
        #[trigger] after.children[i],
    ) by {
        assert(well_formed(node.children[i]));
        if node.is_dir && node.children.len() > 0 && depth < 2 {
            lemma_placed_well_formed(
                node.children[i],
                child_rect(weights(node.children), interior(rect), i),
                depth + 1,
            );
        }
    }
}

/// The weight of `node`.
pub fn node_weight(node: &FileNode) -> (w: u128)
    ensures
        w == weight(node@),
        w <= MAX_WEIGHT,
{
    if node.is_dir {
        let count = node.children.len() as u128 + 1;
        if count > 3 {
            count
        } else {
            3
        }
    } else {
        1
    }
}

/// Lays out `nodes`, the children of one directory, in `area`: each gets its
/// rectangle by column packing, and a directory among them that lies fewer than
/// two levels below the first has its own children laid out inside its border.
/// Nothing but rectangles changes.
pub fn layout_nodes(nodes: &mut [FileNode], area: Rect, depth: u8)
    requires
        area.fits(),
    ensures
        models(final(nodes)@) == laid_out(models(old(nodes)@), area, depth as nat),
        forall|i: int|
            0 <= i < old(nodes)@.len() && well_formed(old(nodes)@[i]@) ==> well_formed(
                #[trigger] final(nodes)@[i]@,
            ),
    decreases levels_left(depth as nat),
{
    let n = nodes.len();
    if n == 0 {
        return;
    }
    let ghost before = models(nodes@);
    let ghost ws = weights(before);
    let mut found: Vec<u128> = Vec::new();
    let mut k: usize = 0;
    while k < n
        invariant
            k <= n,
            n == nodes@.len(),
            nodes@ == old(nodes)@,
            before == models(nodes@),
            ws == weights(before),
            found@.len() == k,
            forall|j: int| 0 <= j < k ==> #[trigger] found@[j] == ws[j] && found@[j] <= MAX_WEIGHT,
        decreases n - k,
    {
        found.push(node_weight(&nodes[k]));
        k += 1;
    }
    assert(as_weights(found@) =~= ws);
    let rects = pack_columns(found.as_slice(), area);
    let mut i: usize = 0;
    while i < n
        invariant
            i <= n,
            n == nodes@.len(),
            n == old(nodes)@.len(),
            area.fits(),
            before == models(old(nodes)@),
            ws == weights(before),
            ws.len() == n,
            rects@.len() == n,
            forall|j: int| 0 <= j < n ==> #[trigger] rects@[j] == child_rect(ws, area, j),
            forall|j: int|
                0 <= j < i ==> model(#[trigger] nodes@[j]) == placed(
                    before[j],
                    child_rect(ws, area, j),
                    depth as nat,
                ),
            forall|j: int| i <= j < n ==> #[trigger] nodes@[j] == old(nodes)@[j],
        decreases n - i,
    {
        let rect = rects[i];
        let ghost was = nodes@[i as int];
        proof {
            lemma_child_in_area(ws, area, i as int);
            lemma_interior_inside(rect);
            lemma_model_children(was);
        }
        nodes[i].rect = rect;
        if nodes[i].is_dir && nodes[i].children.len() > 0 && depth < 2 {
            layout_nodes(&mut nodes[i].children, inner_rect(rect), depth + 1);
        }
        proof {
            let now = nodes@[i as int];
            lemma_model_children(now);
            assert(model(now) =~= placed(before[i as int], rect, depth as nat));
        }
        i += 1;
    }
    assert(models(nodes@) =~= laid_out(before, area, depth as nat));
    assert forall|i: int| 0 <= i < n && well_formed(old(nodes)@[i]@) implies well_formed(
        #[trigger] nodes@[i]@,
    ) by {
        lemma_placed_well_formed(before[i], child_rect(ws, area, i), depth as nat);
    }
}

/// `node` shown over `area`, with its children laid out inside its border.
pub open spec fn framed(node: NodeView, area: Rect) -> NodeView {
    NodeView { rect: area, children: laid_out(node.children, interior(area), 0), ..node }
}

/// Lays out the viewed directory: it takes the whole of `area`, and its children
/// are laid out inside its border.
pub fn layout_directory(node: &mut FileNode, area: Rect)
    requires
        area.fits(),
    ensures
        final(node)@ == framed(old(node)@, area),
        well_formed(old(node)@) ==> well_formed(final(node)@),
{
    proof {
        lemma_interior_inside(area);
        lemma_model_children(*node);
    }
    node.rect = area;
    let content_area = inner_rect(area);
    layout_nodes(&mut node.children, content_area, 0);
    proof {
        lemma_model_children(*node);
        assert(node@ =~= framed(old(node)@, area));
        if well_formed(old(node)@) {
            assert forall|i: int| 0 <= i < node@.children.len() implies well_formed(
                #[trigger] node@.children[i],
            ) by {
                assert(well_formed(old(node)@.children[i]));
                lemma_placed_well_formed(
                    old(node)@.children[i],
                    child_rect(weights(old(node)@.children), interior(area), i),
                    0,
                );
            }
        }
    }
}

} // verus!
