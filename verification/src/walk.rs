//! Finding an entry of the tree by the indices chosen on the way down to it, and
//! finding the directories that are next to be listed.

use vstd::prelude::*;
use crate::tree::{FileNode, NodeView};

verus! {

/// Every index of `path` names a child of the node reached before it.
pub open spec fn valid_path(node: NodeView, path: Seq<usize>) -> bool
    decreases path.len(),
{
    path.len() == 0 || (path[0] < node.children.len() && valid_path(
        node.children[path[0] as int],
        path.drop_first(),
    ))
}

/// The node that `path` leads to from `node`: each index in turn picks a child.
/// An index that names no child is passed over.
pub open spec fn resolve(node: NodeView, path: Seq<usize>) -> NodeView
    decreases path.len(),
{
    if path.len() == 0 {
        node
    } else if path[0] < node.children.len() {
        resolve(node.children[path[0] as int], path.drop_first())
    } else {
        resolve(node, path.drop_first())
    }
}

/// `node` with the node that `path` leads to replaced by `sub`.
pub open spec fn grafted(node: NodeView, path: Seq<usize>, sub: NodeView) -> NodeView
    decreases path.len(),
{
    if path.len() == 0 {
        sub
    } else if path[0] < node.children.len() {
        NodeView {
            children: node.children.update(
                path[0] as int,
                grafted(node.children[path[0] as int], path.drop_first(), sub),
            ),
            ..node
        }
    } else {
        node
    }
}

/// The two values have the same fields.
spec fn agrees(a: NodeView, b: NodeView) -> bool {
    &&& a.name == b.name
    &&& a.path == b.path
    &&& a.is_dir == b.is_dir
    &&& a.rect == b.rect
    &&& a.status == b.status
    &&& a.loaded == b.loaded
    &&& a.children =~= b.children
}

/// The node that `path_stack` leads to from `node`.
pub fn get_current_node<'a>(node: &'a FileNode, path_stack: &[usize]) -> (cur: &'a FileNode)
    ensures
        cur@ == resolve(node@, path_stack@),
{
    let mut cur = node;
    let mut k: usize = 0;
    assert(path_stack@.skip(0) =~= path_stack@);
    while k < path_stack.len()
        invariant
            k <= path_stack@.len(),
            resolve(cur@, path_stack@.skip(k as int)) == resolve(node@, path_stack@),
        decreases path_stack@.len() - k,
    {
        let i = path_stack[k];
        assert(path_stack@.skip(k as int).drop_first() =~= path_stack@.skip(k + 1));
        if i < cur.children.len() {
            cur = &cur.children[i];
        }
        k += 1;
    }
    cur
}

/// The node that the indices of `path_stack` from position `from` on lead to,
/// to be changed in place.
fn descend_mut<'a>(node: &'a mut FileNode, path_stack: &[usize], from: usize) -> (cur:
    &'a mut FileNode)
    requires
        from <= path_stack@.len(),
        valid_path(old(node)@, path_stack@.skip(from as int)),
    ensures
        cur@ == resolve(old(node)@, path_stack@.skip(from as int)),
        agrees(final(node)@, grafted(old(node)@, path_stack@.skip(from as int), final(cur)@)),
    decreases path_stack@.len() - from,
{
    if from == path_stack.len() {
        node
    } else {
        let i = path_stack[from];
        assert(path_stack@.skip(from as int).drop_first() =~= path_stack@.skip(from + 1));
        descend_mut(&mut node.children[i], path_stack, from + 1)
    }
}

/// The node that `path_stack` leads to from `node`, to be changed in place. What
/// the caller does to it is done to that node of the tree, and to no other.
pub fn get_current_node_mut<'a>(node: &'a mut FileNode, path_stack: &[usize]) -> (cur:
    &'a mut FileNode)
    requires
        valid_path(old(node)@, path_stack@),
    ensures
        cur@ == resolve(old(node)@, path_stack@),
        final(node)@ == grafted(old(node)@, path_stack@, final(cur)@),
{
    assert(path_stack@.skip(0) =~= path_stack@);
    descend_mut(node, path_stack, 0)
}

/// Whether every index of `path_stack` names a child of the node reached before
/// it.
pub fn is_valid_path(node: &FileNode, path_stack: &[usize]) -> (valid: bool)
    ensures
        valid == valid_path(node@, path_stack@),
{
    let mut cur = node;
    let mut k: usize = 0;
    assert(path_stack@.skip(0) =~= path_stack@);
    while k < path_stack.len()
        invariant
            k <= path_stack@.len(),
            valid_path(cur@, path_stack@.skip(k as int)) == valid_path(node@, path_stack@),
        decreases path_stack@.len() - k,
    {
        let i = path_stack[k];
        assert(path_stack@.skip(k as int).drop_first() =~= path_stack@.skip(k + 1));
        if i < cur.children.len() {
            cur = &cur.children[i];
        } else {
            return false;
        }
        k += 1;
    }
    true
}

/// Along a valid path, grafting back what is found there changes nothing.
pub proof fn lemma_graft_resolved(node: NodeView, path: Seq<usize>)
    requires
        valid_path(node, path),
    ensures
        grafted(node, path, resolve(node, path)) == node,
    decreases path.len(),
{
    if path.len() > 0 {
        let i = path[0] as int;
        lemma_graft_resolved(node.children[i], path.drop_first());
        assert(node.children.update(i, node.children[i]) =~= node.children);
    }
}

/// What is grafted at a valid path is what the path then leads to, and the path
/// stays valid.
pub proof fn lemma_resolve_grafted(node: NodeView, path: Seq<usize>, sub: NodeView)
    requires
        valid_path(node, path),
    ensures
        valid_path(grafted(node, path, sub), path),
        resolve(grafted(node, path, sub), path) == sub,
    decreases path.len(),
{
    if path.len() > 0 {
        lemma_resolve_grafted(node.children[path[0] as int], path.drop_first(), sub);
    }
}

} // verus!
