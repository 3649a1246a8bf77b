//! The status overlay: what a scan of the repository found, kept by path, and
//! laid over the tree once.

use vstd::prelude::*;
use crate::paths::{path_strip_prefix, strip_prefix};
use crate::status::{classified, classify, Status};
use crate::tree::{lemma_model_children, model, well_formed, FileNode, NodeView};
use crate::walk::{resolve, valid_path};

verus! {

/// One result of a scan: the path of a file, relative to the repository, where
/// it could be read as text, and the status flags found for it.
#[derive(Clone, Debug, PartialEq, Eq)]
pub struct StatusEntry {
    pub path: Option<String>,
    pub flags: u32,
}

/// The map that a list of insertions builds: each key holds the flags inserted
/// for it last.
pub open spec fn mapped(entries: Seq<(String, u32)>) -> Map<Seq<char>, u32>
    decreases entries.len(),
{
    if entries.len() == 0 {
        Map::empty()
    } else {
        mapped(entries.drop_last()).insert(entries.last().0@, entries.last().1)
    }
}

/// Status flags by path. The paths are relative to the directory the scan
/// started from.
#[derive(Debug)]
pub struct StatusMap {
    entries: Vec<(String, u32)>,
}

impl View for StatusMap {
    type V = Map<Seq<char>, u32>;

    closed spec fn view(&self) -> Map<Seq<char>, u32> {
        mapped(self.entries@)
    }
}

/// A key is in the map of a list if and only if an entry of the list has it.
proof fn lemma_mapped_keys(entries: Seq<(String, u32)>, key: Seq<char>)
    ensures
        mapped(entries).contains_key(key) <==> exists|i: int|
            0 <= i < entries.len() && (#[trigger] entries[i]).0@ == key,
    decreases entries.len(),
{
    if entries.len() > 0 {
        let rest = entries.drop_last();
        lemma_mapped_keys(rest, key);
        if mapped(entries).contains_key(key) {
            if entries.last().0@ == key {
                assert(entries[entries.len() - 1].0@ == key);
            } else {
                let i = choose|i: int| 0 <= i < rest.len() && (#[trigger] rest[i]).0@ == key;
                assert(entries[i].0@ == key);
            }
        } else {
            assert forall|i: int| 0 <= i < entries.len() implies (#[trigger] entries[i]).0@
                != key by {
                if i < rest.len() {
                    assert(rest[i].0@ != key);
                }
            }
        }
    }
}

impl StatusMap {
    /// A map without entries.
    pub fn new() -> (map: StatusMap)
        ensures
            map@ == Map::<Seq<char>, u32>::empty(),
    {
        StatusMap { entries: Vec::new() }
    }

    /// Sets the flags of `path` to `flags`, whatever they were.
    pub fn insert(&mut self, path: String, flags: u32)
        ensures
            final(self)@ == old(self)@.insert(path@, flags),
    {
        let ghost before = self.entries@;
        self.entries.push((path, flags));
        assert(self.entries@.drop_last() =~= before);
    }

    /// The flags of `path`, if it has any.
    pub fn get(&self, path: &String) -> (flags: Option<u32>)
        ensures
            flags == if self@.contains_key(path@) {
                Some(self@[path@])
            } else {
                None
            },
    {
        let mut i: usize = self.entries.len();
        assert(self.entries@.take(i as int) =~= self.entries@);
        while i > 0
            invariant
                i <= self.entries@.len(),
                mapped(self.entries@).contains_key(path@) == mapped(
                    self.entries@.take(i as int),
                ).contains_key(path@),
                mapped(self.entries@).contains_key(path@) ==> mapped(self.entries@)[path@]
                    == mapped(self.entries@.take(i as int))[path@],
            decreases i,
        {
            i -= 1;
            assert(self.entries@.take(i + 1).drop_last() =~= self.entries@.take(i as int));
            assert(self.entries@.take(i + 1).last() == self.entries@[i as int]);
            if self.entries[i].0 == *path {
                return Some(self.entries[i].1);
            }
        }
        None
    }
}

/// The map that a scan gives: each result with a path sets the flags of that
/// path; a result without one is left out.
pub open spec fn scanned(entries: Seq<StatusEntry>) -> Map<Seq<char>, u32>
    decreases entries.len(),
{
    if entries.len() == 0 {
        Map::empty()
    } else {
        let before = scanned(entries.drop_last());
        match entries.last().path {
            Some(path) => before.insert(path@, entries.last().flags),
            None => before,
        }
    }
}

/// Gathers the results of a scan into a map by path.
pub fn build_status_map(entries: &[StatusEntry]) -> (map: StatusMap)
    ensures
        map@ == scanned(entries@),
{
    let mut map = StatusMap::new();
    let mut i: usize = 0;
    assert(entries@.take(0) =~= Seq::<StatusEntry>::empty());
    while i < entries.len()
        invariant
            i <= entries@.len(),
            map@ == scanned(entries@.take(i as int)),
        decreases entries@.len() - i,
    {
        assert(entries@.take(i + 1).drop_last() =~= entries@.take(i as int));
        assert(entries@.take(i + 1).last() == entries@[i as int]);
        match &entries[i].path {
            Some(path) => {
                map.insert(path.clone(), entries[i].flags);
            },
            None => {},
        }
        i += 1;
    }
    assert(entries@.take(i as int) =~= entries@);
    map
}

/// The key under which the entry at `path` is looked up: the path relative to
/// `base`. There is none where no base is known or `path` does not lie below it.
pub open spec fn relative_key(path: Seq<char>, base: Option<Seq<char>>) -> Option<Seq<char>> {
    match base {
        Some(b) => path_strip_prefix(path, b),
        None => None,
    }
}

/// The status of `node` once `map` is laid over it: what the flags under its key
/// say, where it has a key and the map holds it; its status as it was, otherwise.
pub open spec fn overlaid_status(
    node: NodeView,
    base: Option<Seq<char>>,
    map: Map<Seq<char>, u32>,
) -> Status {
    match relative_key(node.path, base) {
        Some(key) => if map.contains_key(key) {
            classified(map[key])
        } else {
            node.status
        },
        None => node.status,
    }
}

/// `node` and everything below it with `map` laid over: only statuses change.
pub open spec fn overlaid(
    node: NodeView,
    base: Option<Seq<char>>,
    map: Map<Seq<char>, u32>,
) -> NodeView
    decreases node,
{
    NodeView {
        status: overlaid_status(node, base, map),
        children: Seq::new(
            node.children.len(),
            |i: int|
                if 0 <= i < node.children.len() {
                    overlaid(node.children[i], base, map)
                } else {
                    arbitrary()
                },
        ),
        ..node
    }
}

/// The characters of an optional string slice.
pub open spec fn base_chars(base: Option<&str>) -> Option<Seq<char>> {
    match base {
        Some(b) => Some(b@),
        None => None,
    }
}

/// Lays the statuses of `status_map` over `node` and everything below it. The
/// keys of the map are paths relative to `base`.
pub fn update_tree_status(node: &mut FileNode, base: Option<&str>, status_map: &StatusMap)
    ensures
        final(node)@ == overlaid(old(node)@, base_chars(base), status_map@),
        well_formed(old(node)@) ==> well_formed(final(node)@),
    decreases *old(node),
{
    proof {
        lemma_model_children(*node);
    }
    match base {
        Some(b) => {
            match strip_prefix(node.path.as_str(), b) {
                Some(key) => {
                    match status_map.get(&key) {
                        Some(flags) => {
                            node.status = classify(flags);
                        },
                        None => {},
                    }
                },
                None => {},
            }
        },
        None => {},
    }
    let n = node.children.len();
    let mut i: usize = 0;
    while i < n
        invariant
            i <= n,
            n == node.children@.len(),
            n == old(node).children@.len(),
            node.name == old(node).name,
            node.path == old(node).path,
            node.is_dir == old(node).is_dir,
            node.rect == old(node).rect,
            node.loaded == old(node).loaded,
            node.status == overlaid_status(old(node)@, base_chars(base), status_map@),
            forall|j: int|
                0 <= j < i ==> model(#[trigger] node.children@[j]) == overlaid(
                    model(old(node).children@[j]),
                    base_chars(base),
                    status_map@,
                ),
            forall|j: int| i <= j < n ==> #[trigger] node.children@[j] == old(node).children@[j],
        decreases n - i,
    {
        update_tree_status(&mut node.children[i], base, status_map);
        i += 1;
    }
    proof {
        lemma_model_children(*node);
        assert(node@.children =~= overlaid(old(node)@, base_chars(base), status_map@).children);
        if well_formed(old(node)@) {
            lemma_overlaid_well_formed(old(node)@, base_chars(base), status_map@);
        }
    }
}

/// Laying a map over a well-formed tree leaves it well-formed.
pub proof fn lemma_overlaid_well_formed(
    node: NodeView,
    base: Option<Seq<char>>,
    map: Map<Seq<char>, u32>,
)
    requires
        well_formed(node),
    ensures
        well_formed(overlaid(node, base, map)),
    decreases node,
{
    let after = overlaid(node, base, map);
    assert forall|i: int| 0 <= i < after.children.len() implies well_formed(
        #[trigger] after.children[i],
    ) by {
        assert(well_formed(node.children[i]));
        lemma_overlaid_well_formed(node.children[i], base, map);
    }
}

/// Laying a map over the tree changes the status of a node only where the node's
/// relative path is a key of the map. Every node stays where it was, with its
/// name, its path, its rectangle and its children; a node without a key in the
/// map keeps its status.
pub proof fn lemma_overlay_by_key(
    node: NodeView,
    base: Option<Seq<char>>,
    map: Map<Seq<char>, u32>,
    path: Seq<usize>,
)
    requires
        valid_path(node, path),
    ensures
        valid_path(overlaid(node, base, map), path),
        resolve(overlaid(node, base, map), path) == overlaid(resolve(node, path), base, map),
        resolve(overlaid(node, base, map), path).status == overlaid_status(
            resolve(node, path),
            base,
            map,
        ),
        match relative_key(resolve(node, path).path, base) {
            Some(key) => !map.contains_key(key),
            None => true,
        } ==> resolve(overlaid(node, base, map), path).status == resolve(node, path).status,
    decreases path.len(),
{
    if path.len() > 0 {
        lemma_overlay_by_key(node.children[path[0] as int], base, map, path.drop_first());
    }
}

/// Where the map is empty, or no base is known, laying it over changes nothing.
pub proof fn lemma_overlay_nothing(
    node: NodeView,
    base: Option<Seq<char>>,
    map: Map<Seq<char>, u32>,
)
    requires
        base is None || map == Map::<Seq<char>, u32>::empty(),
    ensures
        overlaid(node, base, map) == node,
    decreases node,
{
    assert forall|i: int| 0 <= i < node.children.len() implies overlaid(
        node.children[i],
        base,
        map,
    ) == node.children[i] by {
        lemma_overlay_nothing(node.children[i], base, map);
    }
    assert(overlaid(node, base, map).children =~= node.children);
}

} // verus!
