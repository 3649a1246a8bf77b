//! Listing directories ahead of the cursor: which directory is to be listed next
//! so that a few levels below a node are known before they are shown.

use vstd::prelude::*;
use crate::tree::{
    indexable, lemma_model_children, listed, with_listing, FileNode, NodeView, Probe,
};
use crate::walk::{grafted, lemma_resolve_grafted, resolve, valid_path};

verus! {

/// How many levels are listed ahead: at the start below the root, and below
/// every directory that is entered.
pub const PRELOAD_DEPTH: usize = 3;

/// Every directory fewer than `depth` levels below `node`, itself included, has
/// been listed.
pub open spec fn preloaded(node: NodeView, depth: nat) -> bool
    decreases depth,
{
    depth == 0 || !node.is_dir || (node.loaded && forall|i: int|
        0 <= i < node.children.len() ==> preloaded(
            #[trigger] node.children[i],
            (depth - 1) as nat,
        ))
}

/// The path from `node` to the first directory fewer than `depth` levels below
/// it that has not been listed, a directory coming before its children and
/// children in their order.
pub open spec fn first_unloaded(node: NodeView, depth: nat) -> Option<Seq<usize>>
    decreases depth, 0nat, 0nat,
{
    if depth == 0 || !node.is_dir {
        None
    } else if !node.loaded {
        Some(Seq::empty())
    } else {
        first_unloaded_from(node.children, (depth - 1) as nat, 0)
    }
}

/// The path to the first such directory at or below the children from `from` on.
pub open spec fn first_unloaded_from(children: Seq<NodeView>, depth: nat, from: int) -> Option<
    Seq<usize>,
>
    decreases depth, 1nat, children.len() - from,
{
    if from < 0 || from >= children.len() {
        None
    } else {
        match first_unloaded(children[from], depth) {
            Some(below) => Some(seq![from as usize] + below),
            None => first_unloaded_from(children, depth, from + 1),
        }
    }
}

/// The indices of an optional path.
pub open spec fn indices_of(path: Option<Vec<usize>>) -> Option<Seq<usize>> {
    match path {
        Some(p) => Some(p@),
        None => None,
    }
}

/// The path from `node` to the directory that is to be listed next, so that all
/// directories fewer than `depth` levels below `node` are listed in the end; or
/// nothing, where they all are.
pub fn next_unloaded(node: &FileNode, depth: usize) -> (path: Option<Vec<usize>>)
    ensures
        indices_of(path) == first_unloaded(node@, depth as nat),
    decreases depth,
{
    if depth == 0 || !node.is_dir {
        return None;
    }
    if !node.loaded {
        return Some(Vec::new());
    }
    proof {
        lemma_model_children(*node);
    }
    let mut i: usize = 0;
    while i < node.children.len()
        invariant
            i <= node.children@.len(),
            depth > 0,
            node@.children.len() == node.children@.len(),
            forall|j: int| 0 <= j < node.children@.len() ==> node@.children[j] == node.children@[j]@,
            first_unloaded_from(node@.children, (depth - 1) as nat, i as int) == first_unloaded(
                node@,
                depth as nat,
            ),
        decreases node.children@.len() - i,
    {
        match next_unloaded(&node.children[i], depth - 1) {
            Some(mut below) => {
                let ghost tail = below@;
                below.insert(0, i);
                assert(below@ =~= seq![i] + tail);
                return Some(below);
            },
            None => {},
        }
        i += 1;
    }
    None
}

/// What the search among children finds: nothing, if and only if all children
/// from `from` on are listed as far as `depth` asks; else a path through a child
/// to a directory that has not been listed.
pub proof fn lemma_first_unloaded_from(children: Seq<NodeView>, depth: nat, from: int)
    requires
        0 <= from,
        children.len() <= usize::MAX,
        forall|i: int| 0 <= i < children.len() ==> indexable(#[trigger] children[i]),
    ensures
        first_unloaded_from(children, depth, from) is None <==> forall|i: int|
            from <= i < children.len() ==> preloaded(#[trigger] children[i], depth),
        first_unloaded_from(children, depth, from) matches Some(path) ==> {
            &&& path.len() >= 1
            &&& from <= path[0] < children.len()
            &&& path.len() <= depth
            &&& valid_path(children[path[0] as int], path.drop_first())
            &&& resolve(children[path[0] as int], path.drop_first()).is_dir
            &&& !resolve(children[path[0] as int], path.drop_first()).loaded
        },
    decreases depth, 1nat, children.len() - from,
{
    if from < children.len() {
        lemma_first_unloaded(children[from], depth);
        match first_unloaded(children[from], depth) {
            Some(below) => {
                let path = seq![from as usize] + below;
                assert(path.drop_first() =~= below);
                assert(!preloaded(children[from], depth));
            },
            None => {
                lemma_first_unloaded_from(children, depth, from + 1);
                if first_unloaded_from(children, depth, from + 1) is None {
                    assert forall|i: int| from <= i < children.len() implies preloaded(
                        #[trigger] children[i],
                        depth,
                    ) by {
                        if i > from {
                            assert(from + 1 <= i);
                        }
                    }
                }
            },
        }
    }
}

/// What the search finds: nothing, if and only if every directory fewer than
/// `depth` levels below `node` is listed; else a valid path, shorter than
/// `depth`, to a directory that has not been listed.
pub proof fn lemma_first_unloaded(node: NodeView, depth: nat)
    requires
        indexable(node),
    ensures
        first_unloaded(node, depth) is None <==> preloaded(node, depth),
        first_unloaded(node, depth) matches Some(path) ==> {
            &&& path.len() < depth
            &&& valid_path(node, path)
            &&& resolve(node, path).is_dir
            &&& !resolve(node, path).loaded
        },
    decreases depth, 0nat, 0nat,
{
    if depth > 0 && node.is_dir && node.loaded {
        lemma_first_unloaded_from(node.children, (depth - 1) as nat, 0);
    }
}

/// Listing the directory that the search finds is a step ahead: that directory
/// is listed afterwards, whatever the listing holds, so the search does not find
/// it again.
pub proof fn lemma_listing_makes_progress(node: NodeView, depth: nat, entries: Seq<Probe>)
    requires
        indexable(node),
        entries.len() <= usize::MAX,
        first_unloaded(node, depth) is Some,
    ensures
        ({
            let path = first_unloaded(node, depth)->0;
            let after = grafted(node, path, with_listing(resolve(node, path), entries));
            &&& valid_path(after, path)
            &&& resolve(after, path).loaded
            &&& resolve(after, path).children == listed(entries)
            &&& first_unloaded(after, depth) != Some(path)
        }),
{
    let path = first_unloaded(node, depth)->0;
    let listing = with_listing(resolve(node, path), entries);
    let after = grafted(node, path, listing);
    lemma_first_unloaded(node, depth);
    lemma_resolve_grafted(node, path, listing);
    if first_unloaded(after, depth) == Some(path) {
        lemma_listed_indexable(entries);
        lemma_graft_indexable(node, path, listing);
        lemma_first_unloaded(after, depth);
    }
}

/// A listing gives no more children than it has entries, each without children
/// of its own.
pub proof fn lemma_listed_indexable(entries: Seq<Probe>)
    ensures
        listed(entries).len() <= entries.len(),
        forall|i: int|
            0 <= i < listed(entries).len() ==> indexable(
                #[trigger] listed(entries)[i],
            ),
    decreases entries.len(),
{
    if entries.len() > 0 {
        lemma_listed_indexable(entries.drop_last());
    }
}

/// A tree stays indexable where an indexable node is grafted into it.
pub proof fn lemma_graft_indexable(node: NodeView, path: Seq<usize>, sub: NodeView)
    requires
        indexable(node),
        indexable(sub),
    ensures
        indexable(grafted(node, path, sub)),
    decreases path.len(),
{
    if path.len() > 0 && path[0] < node.children.len() {
        lemma_graft_indexable(node.children[path[0] as int], path.drop_first(), sub);
    }
}

} // verus!
