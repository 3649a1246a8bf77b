//! What is to be drawn: the panels and entries of the viewed directory, in the
//! order they are painted, and the line that describes the highlighted entry.

use vstd::prelude::*;
use crate::geometry::Rect;
use crate::layout::levels_left;
use crate::status::{shown_in, status_color, Color};
use crate::tree::{lemma_model_children, models, FileNode, NodeView};

verus! {

/// One thing to draw.
#[derive(Clone, Debug, PartialEq, Eq)]
pub enum DrawItem {
    /// A bordered panel with a title, for a directory. A highlighted panel has
    /// its border in the highlight colour.
    Panel { title: String, rect: Rect, highlighted: bool },
    /// A line of text in a colour, for a file.
    Entry { name: String, rect: Rect, color: Color },
}

/// One thing to draw, as a value.
pub enum Drawn {
    Panel { title: Seq<char>, rect: Rect, highlighted: bool },
    Entry { name: Seq<char>, rect: Rect, color: Color },
}

impl View for DrawItem {
    type V = Drawn;

    open spec fn view(&self) -> Drawn {
        match *self {
            DrawItem::Panel { title, rect, highlighted } => Drawn::Panel {
                title: title@,
                rect,
                highlighted,
            },
            DrawItem::Entry { name, rect, color } => Drawn::Entry { name: name@, rect, color },
        }
    }
}

/// The values of a list of things to draw.
pub open spec fn drawn_all(items: Seq<DrawItem>) -> Seq<Drawn> {
    Seq::new(items.len(), |i: int| items[i]@)
}

/// What is drawn for `node`, `depth` levels below the children of the viewed
/// directory, and for what lies below it. Nothing is drawn three levels down or
/// deeper. The node is highlighted where `lit` says so or its path is the
/// selected one; a highlighted directory highlights all that lies in it. A file
/// is drawn in the colour of its status unless it is highlighted.
pub open spec fn drawn_node(
    node: NodeView,
    selected: Option<Seq<char>>,
    lit: bool,
    depth: nat,
) -> Seq<Drawn>
    decreases levels_left(depth), 0nat, 0nat,
{
    if depth >= 3 {
        Seq::empty()
    } else {
        let highlighted = lit || selected == Some(node.path);
        if node.is_dir {
            seq![Drawn::Panel { title: node.name, rect: node.rect, highlighted }] + drawn_below(
                node.children,
                highlighted,
                depth + 1,
                0,
            )
        } else {
            seq![
                Drawn::Entry {
                    name: node.name,
                    rect: node.rect,
                    color: if highlighted {
                        Color::Magenta
                    } else {
                        shown_in(node.status)
                    },
                },
            ]
        }
    }
}

/// What is drawn for the children from `from` on of a directory, in their
/// order, at `depth`.
pub open spec fn drawn_below(children: Seq<NodeView>, lit: bool, depth: nat, from: int) -> Seq<
    Drawn,
>
    decreases levels_left(depth), 1nat, children.len() - from,
{
    if from < 0 || from >= children.len() {
        Seq::empty()
    } else {
        drawn_node(children[from], None, lit, depth) + drawn_below(children, lit, depth, from + 1)
    }
}

/// What is drawn for the children from `from` on of the viewed directory: the
/// one whose path is selected is highlighted.
pub open spec fn drawn_children(children: Seq<NodeView>, selected: Option<Seq<char>>, from: int)
    -> Seq<Drawn>
    decreases children.len() - from,
{
    if from < 0 || from >= children.len() {
        Seq::empty()
    } else {
        drawn_node(children[from], selected, selected == Some(children[from].path), 0)
            + drawn_children(children, selected, from + 1)
    }
}

/// What is drawn for the viewed directory: its own panel, never highlighted, and
/// its children.
pub open spec fn drawn_view(node: NodeView, selected: Option<Seq<char>>) -> Seq<Drawn> {
    seq![Drawn::Panel { title: node.name, rect: node.rect, highlighted: false }] + drawn_children(
        node.children,
        selected,
        0,
    )
}

/// The characters of an optional string.
pub open spec fn selected_chars(selected: Option<&String>) -> Option<Seq<char>> {
    match selected {
        Some(s) => Some(s@),
        None => None,
    }
}

/// Whether `path` is the selected one.
fn is_selected(path: &String, selected: Option<&String>) -> (hit: bool)
    ensures
        hit == (selected_chars(selected) == Some(path@)),
{
    match selected {
        Some(s) => *path == *s,
        None => false,
    }
}

/// Adds to `items` what is drawn for `node` and for what lies below it.
pub fn draw_file_node(
    items: &mut Vec<DrawItem>,
    node: &FileNode,
    selected: Option<&String>,
    lit: bool,
    depth: usize,
)
    ensures
        drawn_all(final(items)@) == drawn_all(old(items)@) + drawn_node(
            node@,
            selected_chars(selected),
            lit,
            depth as nat,
        ),
    decreases levels_left(depth as nat),
{
    if depth >= 3 {
        assert(drawn_all(items@) + Seq::<Drawn>::empty() =~= drawn_all(items@));
        return;
    }
    let highlighted = lit || is_selected(&node.path, selected);
    let ghost before = drawn_all(items@);
    if node.is_dir {
        let item = DrawItem::Panel { title: node.name.clone(), rect: node.rect, highlighted };
        let ghost first = item@;
        items.push(item);
        assert(drawn_all(items@) =~= before + seq![first]);
        proof {
            lemma_model_children(*node);
        }
        let n = node.children.len();
        let mut i: usize = 0;
        while i < n
            invariant
                i <= n,
                n == node.children@.len(),
                depth < 3,
                node@.children == models(node.children@),
                drawn_all(items@) + drawn_below(
                    node@.children,
                    highlighted,
                    (depth + 1) as nat,
                    i as int,
                ) == before + seq![first] + drawn_below(
                    node@.children,
                    highlighted,
                    (depth + 1) as nat,
                    0,
                ),
            decreases n - i,
        {
            let ghost so_far = drawn_all(items@);
            draw_file_node(items, &node.children[i], None, highlighted, depth + 1);
            proof {
                let one = drawn_node(node@.children[i as int], None, highlighted, (depth + 1) as nat);
                let rest = drawn_below(node@.children, highlighted, (depth + 1) as nat, i + 1);
                assert(selected_chars(None) == None::<Seq<char>>);
                assert(drawn_all(items@) == so_far + one);
                assert((so_far + one) + rest =~= so_far + (one + rest));
            }
            i += 1;
        }
        assert(drawn_below(node@.children, highlighted, (depth + 1) as nat, n as int)
            =~= Seq::<Drawn>::empty());
        assert(drawn_all(items@) =~= before + (seq![first] + drawn_below(
            node@.children,
            highlighted,
            (depth + 1) as nat,
            0,
        )));
    } else {
        let color = if highlighted {
            Color::Magenta
        } else {
            status_color(node.status)
        };
        let item = DrawItem::Entry { name: node.name.clone(), rect: node.rect, color };
        let ghost first = item@;
        items.push(item);
        assert(drawn_all(items@) =~= before + seq![first]);
    }
}

/// What is to be drawn for the viewed directory `node`, in the order it is
/// painted. `selected_child` is the path of the highlighted child, if there is
/// one.
pub fn draw_current_view(node: &FileNode, selected_child: Option<&String>) -> (items: Vec<
    DrawItem,
>)
    ensures
        drawn_all(items@) == drawn_view(node@, selected_chars(selected_child)),
{
    let mut items: Vec<DrawItem> = Vec::new();
    let item = DrawItem::Panel { title: node.name.clone(), rect: node.rect, highlighted: false };
    let ghost first = item@;
    items.push(item);
    assert(drawn_all(items@) =~= seq![first]);
    proof {
        lemma_model_children(*node);
    }
    let ghost selected = selected_chars(selected_child);
    let n = node.children.len();
    let mut i: usize = 0;
    while i < n
        invariant
            i <= n,
            n == node.children@.len(),
            selected == selected_chars(selected_child),
            node@.children == models(node.children@),
            drawn_all(items@) + drawn_children(node@.children, selected, i as int) == seq![first]
                + drawn_children(node@.children, selected, 0),
        decreases n - i,
    {
        let ghost so_far = drawn_all(items@);
        let lit = is_selected(&node.children[i].path, selected_child);
        draw_file_node(&mut items, &node.children[i], selected_child, lit, 0);
        proof {
            let one = drawn_node(node@.children[i as int], selected, lit, 0);
            let rest = drawn_children(node@.children, selected, i + 1);
            assert(drawn_all(items@) == so_far + one);
            assert((so_far + one) + rest =~= so_far + (one + rest));
        }
        i += 1;
    }
    assert(drawn_children(node@.children, selected, n as int) =~= Seq::<Drawn>::empty());
    assert(drawn_all(items@) =~= drawn_view(node@, selected));
    items
}

/// What the file system says of an entry.
#[derive(Clone, Copy, Debug, PartialEq, Eq, Structural)]
pub struct Metadata {
    pub is_dir: bool,
    pub readonly: bool,
    pub len: u64,
}

/// The kind of an entry, as far as it is known.
#[derive(Clone, Copy, Debug, PartialEq, Eq, Structural)]
pub enum EntryKind {
    Directory,
    File,
    Unknown,
}

/// Whether an entry can be written, as far as it is known.
#[derive(Clone, Copy, Debug, PartialEq, Eq, Structural)]
pub enum Access {
    ReadOnly,
    Writable,
    Unknown,
}

/// What the line below the panels says of the highlighted entry.
#[derive(Clone, Copy, Debug, PartialEq, Eq, Structural)]
pub struct Description {
    pub kind: EntryKind,
    pub access: Access,
    /// The size in bytes, which is given for a file only.
    pub size: Option<u64>,
}

/// What is said of an entry with the metadata `metadata`: nothing is known where
/// none could be read.
pub open spec fn described(metadata: Option<Metadata>) -> Description {
    match metadata {
        Some(m) => Description {
            kind: if m.is_dir {
                EntryKind::Directory
            } else {
                EntryKind::File
            },
            access: if m.readonly {
                Access::ReadOnly
            } else {
                Access::Writable
            },
            size: if m.is_dir {
                None
            } else {
                Some(m.len)
            },
        },
        None => Description { kind: EntryKind::Unknown, access: Access::Unknown, size: None },
    }
}

/// What the line below the panels says of an entry with the metadata `metadata`.
pub fn describe(metadata: Option<Metadata>) -> (description: Description)
    ensures
        description == described(metadata),
{
    match metadata {
        Some(m) => Description {
            kind: if m.is_dir {
                EntryKind::Directory
            } else {
                EntryKind::File
            },
            access: if m.readonly {
                Access::ReadOnly
            } else {
                Access::Writable
            },
            size: if m.is_dir {
                None
            } else {
                Some(m.len)
            },
        },
        None => Description { kind: EntryKind::Unknown, access: Access::Unknown, size: None },
    }
}

/// The word shown for a kind of entry.
pub fn kind_label(kind: EntryKind) -> (label: &'static str)
    ensures
        label@ == match kind {
            EntryKind::Directory => "Directory"@,
            EntryKind::File => "File"@,
            EntryKind::Unknown => "Unknown"@,
        },
{
    match kind {
        EntryKind::Directory => "Directory",
        EntryKind::File => "File",
        EntryKind::Unknown => "Unknown",
    }
}

/// The word shown for the access to an entry.
pub fn access_label(access: Access) -> (label: &'static str)
    ensures
        label@ == match access {
            Access::ReadOnly => "Read-only"@,
            Access::Writable => "Writable"@,
            Access::Unknown => "Unknown"@,
        },
{
    match access {
        Access::ReadOnly => "Read-only",
        Access::Writable => "Writable",
        Access::Unknown => "Unknown",
    }
}

} // verus!
