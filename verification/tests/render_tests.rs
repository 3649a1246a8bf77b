use dirview::geometry::Rect;
use dirview::layout::layout_directory;
use dirview::render::{
    access_label, describe, draw_current_view, draw_file_node, kind_label, Access, Description,
    DrawItem, EntryKind, Metadata,
};
use dirview::status::{Color, Status};
use dirview::tree::{build_file_tree, load_children, FileNode, Probe};

fn probe(path: &str, is_dir: bool) -> Probe {
    Probe { path: path.to_string(), is_dir: Some(is_dir) }
}

fn rect(x: u16, y: u16, width: u16, height: u16) -> Rect {
    Rect { x, y, width, height }
}

fn shown_tree() -> FileNode {
    let mut root = build_file_tree("/r", true);
    load_children(&mut root, &[probe("/r/a.txt", false), probe("/r/sub", true)]);
    load_children(&mut root.children[1], &[probe("/r/sub/x.txt", false)]);
    root.children[0].status = Status::Added;
    root.children[1].children[0].status = Status::Deleted;
    layout_directory(&mut root, rect(0, 0, 22, 8));
    root
}

fn panel(title: &str, rect: Rect, highlighted: bool) -> DrawItem {
    DrawItem::Panel { title: title.to_string(), rect, highlighted }
}

fn line(name: &str, rect: Rect, color: Color) -> DrawItem {
    DrawItem::Entry { name: name.to_string(), rect, color }
}

#[test]
fn view_is_drawn_parents_first() {
    let root = shown_tree();
    let items = draw_current_view(&root, None);
    assert_eq!(
        items,
        vec![
            panel("r", rect(0, 0, 22, 8), false),
            line("a.txt", rect(1, 1, 20, 2), Color::Green),
            panel("sub", rect(1, 3, 20, 4), false),
            line("x.txt", rect(2, 4, 18, 2), Color::Red),
        ]
    );
}

#[test]
fn selected_file_is_drawn_in_the_highlight_colour() {
    let root = shown_tree();
    let selected = "/r/a.txt".to_string();
    let items = draw_current_view(&root, Some(&selected));
    assert_eq!(items[1], line("a.txt", rect(1, 1, 20, 2), Color::Magenta));
    assert_eq!(items[2], panel("sub", rect(1, 3, 20, 4), false));
    assert_eq!(items[3], line("x.txt", rect(2, 4, 18, 2), Color::Red));
    assert_eq!(items[0], panel("r", rect(0, 0, 22, 8), false));
}

#[test]
fn selected_directory_highlights_what_lies_in_it() {
    let root = shown_tree();
    let selected = "/r/sub".to_string();
    let items = draw_current_view(&root, Some(&selected));
    assert_eq!(items[1], line("a.txt", rect(1, 1, 20, 2), Color::Green));
    assert_eq!(items[2], panel("sub", rect(1, 3, 20, 4), true));
    assert_eq!(items[3], line("x.txt", rect(2, 4, 18, 2), Color::Magenta));
}

#[test]
fn selection_below_the_first_level_highlights_nothing() {
    let root = shown_tree();
    let selected = "/r/sub/x.txt".to_string();
    let items = draw_current_view(&root, Some(&selected));
    assert_eq!(items[3], line("x.txt", rect(2, 4, 18, 2), Color::Red));
    assert_eq!(items[2], panel("sub", rect(1, 3, 20, 4), false));
}

#[test]
fn nothing_is_drawn_three_levels_down() {
    let mut root = build_file_tree("/r", true);
    load_children(&mut root, &[probe("/r/a", true)]);
    load_children(&mut root.children[0], &[probe("/r/a/b", true)]);
    load_children(&mut root.children[0].children[0], &[probe("/r/a/b/c", true)]);
    load_children(&mut root.children[0].children[0].children[0], &[probe("/r/a/b/c/d", false)]);
    let items = draw_current_view(&root, None);
    let titles: Vec<String> = items
        .iter()
        .map(|item| match item {
            DrawItem::Panel { title, .. } => title.clone(),
            DrawItem::Entry { name, .. } => name.clone(),
        })
        .collect();
    assert_eq!(titles, vec!["r", "a", "b", "c"]);
}

#[test]
fn node_is_drawn_after_what_was_drawn_before() {
    let root = shown_tree();
    let mut items = vec![line("kept", rect(9, 9, 1, 1), Color::White)];
    draw_file_node(&mut items, &root.children[1], None, false, 1);
    assert_eq!(items.len(), 3);
    assert_eq!(items[0], line("kept", rect(9, 9, 1, 1), Color::White));
    assert_eq!(items[1], panel("sub", rect(1, 3, 20, 4), false));
    draw_file_node(&mut items, &root.children[1], None, true, 2);
    assert_eq!(items.len(), 4);
    assert_eq!(items[3], panel("sub", rect(1, 3, 20, 4), true));
    draw_file_node(&mut items, &root.children[1], None, true, 3);
    assert_eq!(items.len(), 4);
}

#[test]
fn view_of_a_directory_without_children_is_its_panel() {
    let root = build_file_tree("/lonely", true);
    assert_eq!(draw_current_view(&root, None), vec![panel("lonely", rect(0, 0, 0, 0), false)]);
}

#[test]
fn file_is_described_with_its_size() {
    let meta = Metadata { is_dir: false, readonly: false, len: 120 };
    assert_eq!(
        describe(Some(meta)),
        Description { kind: EntryKind::File, access: Access::Writable, size: Some(120) }
    );
}

#[test]
fn directory_is_described_without_a_size() {
    let meta = Metadata { is_dir: true, readonly: true, len: 4096 };
    assert_eq!(
        describe(Some(meta)),
        Description { kind: EntryKind::Directory, access: Access::ReadOnly, size: None }
    );
}

#[test]
fn entry_without_metadata_is_unknown() {
    assert_eq!(
        describe(None),
        Description { kind: EntryKind::Unknown, access: Access::Unknown, size: None }
    );
}

#[test]
fn kinds_and_access_have_their_words() {
    assert_eq!(kind_label(EntryKind::Directory), "Directory");
    assert_eq!(kind_label(EntryKind::File), "File");
    assert_eq!(kind_label(EntryKind::Unknown), "Unknown");
    assert_eq!(access_label(Access::ReadOnly), "Read-only");
    assert_eq!(access_label(Access::Writable), "Writable");
    assert_eq!(access_label(Access::Unknown), "Unknown");
}
