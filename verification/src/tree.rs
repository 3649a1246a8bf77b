//! The tree of entries below the browsed path. A directory's children are listed
//! when they are first needed, and never again.

use vstd::prelude::*;
use crate::geometry::Rect;
use crate::paths::{display_name, entry_label};
use crate::status::Status;

verus! {

/// One entry of the tree: a file or a directory.
#[derive(Debug)]
pub struct FileNode {
    /// The label the entry is shown under.
    pub name: String,
    /// The path of the entry, which tells it from every other entry of the tree.
    pub path: String,
    pub is_dir: bool,
    /// Where the entry was last laid out.
    pub rect: Rect,
    pub status: Status,
    /// The entries of a directory, in the order they were listed in.
    pub children: Vec<FileNode>,
    /// Whether the children have been listed. A file has none to list.
    pub loaded: bool,
}

/// An entry as a value: its strings as sequences of characters, its children as a
/// sequence of such values.
#[verifier::ext_equal]
pub struct NodeView {
    pub name: Seq<char>,
    pub path: Seq<char>,
    pub is_dir: bool,
    pub rect: Rect,
    pub status: Status,
    pub children: Seq<NodeView>,
    pub loaded: bool,
}

/// The value that `node` stands for.
pub open spec fn model(node: FileNode) -> NodeView
    decreases node,
{
    NodeView {
        name: node.name@,
        path: node.path@,
        is_dir: node.is_dir,
        rect: node.rect,
        status: node.status,
        children: Seq::new(
            node.children@.len(),
            |i: int|
                if 0 <= i < node.children@.len() {
                    model(node.children@[i])
                } else {
                    arbitrary()
                },
        ),
        loaded: node.loaded,
    }
}

/// The values that `nodes` stand for.
pub open spec fn models(nodes: Seq<FileNode>) -> Seq<NodeView> {
    Seq::new(nodes.len(), |i: int| model(nodes[i]))
}

impl View for FileNode {
    type V = NodeView;

    open spec fn view(&self) -> NodeView {
        model(*self)
    }
}

/// The children of a node are the values of its children.
pub proof fn lemma_model_children(node: FileNode)
    ensures
        node@.children == models(node.children@),
{
    assert(node@.children =~= models(node.children@));
}

/// No node at or below `node` has more children than a `usize` can count.
pub open spec fn indexable(node: NodeView) -> bool
    decreases node,
{
    &&& node.children.len() <= usize::MAX
    &&& forall|i: int| 0 <= i < node.children.len() ==> indexable(#[trigger] node.children[i])
}

/// The value of a node that is held in memory is indexable.
pub proof fn lemma_model_indexable(node: FileNode)
    ensures
        indexable(node@),
    decreases node,
{
    assert forall|i: int| 0 <= i < node@.children.len() implies indexable(
        #[trigger] node@.children[i],
    ) by {
        lemma_model_indexable(node.children@[i]);
    }
    assert(node@.children.len() == node.children.len());
}

/// An entry that was just found: nothing is known of it but its name, its path
/// and its kind. A file has no children to list, so it counts as loaded.
pub open spec fn fresh(name: Seq<char>, path: Seq<char>, is_dir: bool) -> NodeView {
    NodeView {
        name,
        path,
        is_dir,
        rect: Rect { x: 0, y: 0, width: 0, height: 0 },
        status: Status::Untouched,
        children: Seq::empty(),
        loaded: !is_dir,
    }
}

/// Only a loaded directory has children, at any depth.
pub open spec fn well_formed(node: NodeView) -> bool
    decreases node,
{
    &&& !node.loaded ==> node.children.len() == 0
    &&& !node.is_dir ==> node.loaded && node.children.len() == 0
    &&& forall|i: int| 0 <= i < node.children.len() ==> well_formed(#[trigger] node.children[i])
}

impl FileNode {
    /// An entry that was just found.
    pub fn new(name: String, path: String, is_dir: bool) -> (node: FileNode)
        ensures
            node@ == fresh(name@, path@, is_dir),
            well_formed(node@),
    {
        let node = FileNode {
            name,
            path,
            is_dir,
            rect: Rect::zero(),
            status: Status::Untouched,
            children: Vec::new(),
            loaded: !is_dir,
        };
        assert(node@.children =~= Seq::empty());
        node
    }
}

/// The root of a tree: the entry at `path`, which is a directory or not as
/// `is_dir` says, with nothing listed yet.
pub fn build_file_tree(path: &str, is_dir: bool) -> (node: FileNode)
    ensures
        node@ == fresh(display_name(path@), path@, is_dir),
        well_formed(node@),
{
    FileNode::new(entry_label(path), path.to_owned(), is_dir)
}

/// One name found in a directory: the path of the entry, and whether it is a
/// directory, where that could be found out.
#[derive(Clone, Debug, PartialEq, Eq)]
pub struct Probe {
    pub path: String,
    pub is_dir: Option<bool>,
}

/// The children that a listing gives: one for each entry whose kind is known, in
/// the order of the listing. An entry whose kind could not be read is left out.
pub open spec fn listed(entries: Seq<Probe>) -> Seq<NodeView>
    decreases entries.len(),
{
    if entries.len() == 0 {
        Seq::empty()
    } else {
        let before = listed(entries.drop_last());
        match entries.last().is_dir {
            Some(is_dir) => before.push(
                fresh(display_name(entries.last().path@), entries.last().path@, is_dir),
            ),
            None => before,
        }
    }
}

/// `node` after its children were asked for and the listing `entries` came back.
/// A directory that has not been listed takes the listing and counts as loaded from
/// then on, whatever the listing holds; any other node stays as it is.
pub open spec fn with_listing(node: NodeView, entries: Seq<Probe>) -> NodeView {
    if node.is_dir && !node.loaded {
        NodeView { children: listed(entries), loaded: true, ..node }
    } else {
        node
    }
}

/// Whether the children of `node` are still to be listed.
pub fn needs_listing(node: &FileNode) -> (needed: bool)
    ensures
        needed == (node@.is_dir && !node@.loaded),
{
    node.is_dir && !node.loaded
}

/// Gives `node` the children that the listing `entries` of its directory holds.
/// Nothing happens to a file, or to a directory that was listed before.
pub fn load_children(node: &mut FileNode, entries: &[Probe])
    ensures
        final(node)@ == with_listing(old(node)@, entries@),
        well_formed(old(node)@) ==> well_formed(final(node)@),
{
    if !node.is_dir || node.loaded {
        return;
    }
    let mut children: Vec<FileNode> = Vec::new();
    let mut i: usize = 0;
    assert(entries@.take(0) =~= Seq::empty());
    while i < entries.len()
        invariant
            i <= entries@.len(),
            models(children@) == listed(entries@.take(i as int)),
            forall|k: int| 0 <= k < children@.len() ==> well_formed(#[trigger] model(children@[k])),
        decreases entries@.len() - i,
    {
        let ghost before = children@;
        proof {
            assert(entries@.take(i + 1).drop_last() =~= entries@.take(i as int));
            assert(entries@.take(i + 1).last() == entries@[i as int]);
        }
        match entries[i].is_dir {
            Some(is_dir) => {
                let path = entries[i].path.clone();
                let child = FileNode::new(entry_label(path.as_str()), path, is_dir);
                children.push(child);
                assert(models(children@) =~= models(before).push(child@));
            },
            None => {},
        }
        i += 1;
    }
    assert(entries@.take(i as int) =~= entries@);
    node.children = children;
    node.loaded = true;
    assert(node@.children =~= listed(entries@));
}

/// Listing a directory a second time changes nothing: what the first listing
/// gave stays, whatever the second one holds.
pub proof fn lemma_listing_once(node: NodeView, first: Seq<Probe>, second: Seq<Probe>)
    ensures
        with_listing(with_listing(node, first), second) == with_listing(node, first),
{
}

} // verus!
