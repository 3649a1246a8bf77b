use dirview::geometry::Rect;
use dirview::layout::{layout_directory, layout_nodes, node_weight};
use dirview::preload::{next_unloaded, PRELOAD_DEPTH};
use dirview::status::Status;
use dirview::tree::{build_file_tree, load_children, needs_listing, FileNode, Probe};
use dirview::walk::{get_current_node, get_current_node_mut, is_valid_path};

fn rect(x: u16, y: u16, width: u16, height: u16) -> Rect {
    Rect { x, y, width, height }
}

fn probe(path: &str, is_dir: bool) -> Probe {
    Probe { path: path.to_string(), is_dir: Some(is_dir) }
}

fn sample_tree() -> FileNode {
    let mut root = build_file_tree("/work/root", true);
    load_children(
        &mut root,
        &[
            probe("/work/root/a.txt", false),
            probe("/work/root/b.txt", false),
            probe("/work/root/sub", true),
        ],
    );
    load_children(
        &mut root.children[2],
        &[probe("/work/root/sub/x.txt", false), probe("/work/root/sub/y.txt", false)],
    );
    root
}

#[test]
fn new_file_counts_as_loaded() {
    let node = FileNode::new("a.txt".to_string(), "/r/a.txt".to_string(), false);
    assert_eq!(node.name, "a.txt");
    assert_eq!(node.path, "/r/a.txt");
    assert!(!node.is_dir);
    assert!(node.loaded);
    assert!(node.children.is_empty());
    assert_eq!(node.status, Status::Untouched);
    assert_eq!(node.rect, rect(0, 0, 0, 0));
}

#[test]
fn new_directory_is_not_loaded() {
    let node = FileNode::new("sub".to_string(), "/r/sub".to_string(), true);
    assert!(node.is_dir);
    assert!(!node.loaded);
    assert!(node.children.is_empty());
    assert!(needs_listing(&node));
}

#[test]
fn root_is_named_by_its_last_component() {
    let root = build_file_tree("/work/root", true);
    assert_eq!(root.name, "root");
    assert_eq!(root.path, "/work/root");
    let file = build_file_tree("notes/today.md", false);
    assert_eq!(file.name, "today.md");
    assert!(file.loaded);
}

#[test]
fn root_without_a_last_component_is_named_by_its_path() {
    assert_eq!(build_file_tree("..", true).name, "..");
    assert_eq!(build_file_tree("/", true).name, "/");
}

#[test]
fn listing_keeps_the_order_and_skips_unreadable_entries() {
    let mut root = build_file_tree("/r", true);
    let entries = vec![
        probe("/r/b", true),
        Probe { path: "/r/gone".to_string(), is_dir: None },
        probe("/r/a.txt", false),
    ];
    load_children(&mut root, &entries);
    assert!(root.loaded);
    assert_eq!(root.children.len(), 2);
    assert_eq!(root.children[0].name, "b");
    assert_eq!(root.children[0].path, "/r/b");
    assert!(root.children[0].is_dir);
    assert!(!root.children[0].loaded);
    assert_eq!(root.children[1].name, "a.txt");
    assert!(!root.children[1].is_dir);
    assert!(root.children[1].loaded);
}

#[test]
fn empty_listing_still_loads() {
    let mut root = build_file_tree("/r", true);
    load_children(&mut root, &[]);
    assert!(root.loaded);
    assert!(root.children.is_empty());
    assert!(!needs_listing(&root));
}

#[test]
fn second_listing_changes_nothing() {
    let mut root = build_file_tree("/r", true);
    load_children(&mut root, &[probe("/r/a", false), probe("/r/b", false)]);
    load_children(&mut root, &[probe("/r/c", false)]);
    let paths: Vec<&str> = root.children.iter().map(|c| c.path.as_str()).collect();
    assert_eq!(paths, vec!["/r/a", "/r/b"]);
    assert!(root.loaded);
}

#[test]
fn listing_a_file_changes_nothing() {
    let mut file = build_file_tree("/r/a.txt", false);
    load_children(&mut file, &[probe("/r/a.txt/x", false)]);
    assert!(file.children.is_empty());
    assert!(file.loaded);
}

#[test]
fn next_directory_to_list_is_found_parents_first() {
    let mut root = build_file_tree("/r", true);
    assert_eq!(next_unloaded(&root, 3), Some(vec![]));
    load_children(&mut root, &[probe("/r/a.txt", false), probe("/r/d", true), probe("/r/e", true)]);
    assert_eq!(next_unloaded(&root, 3), Some(vec![1]));
    load_children(&mut root.children[1], &[probe("/r/d/x", false), probe("/r/d/deep", true)]);
    assert_eq!(next_unloaded(&root, 3), Some(vec![1, 1]));
    load_children(&mut root.children[1].children[1], &[probe("/r/d/deep/further", true)]);
    assert_eq!(next_unloaded(&root, 3), Some(vec![2]));
    load_children(&mut root.children[2], &[]);
    assert_eq!(next_unloaded(&root, 3), None);
    assert_eq!(next_unloaded(&root, 4), Some(vec![1, 1, 0]));
}

#[test]
fn nothing_is_listed_at_depth_zero_or_below_a_file() {
    let root = build_file_tree("/r", true);
    assert_eq!(next_unloaded(&root, 0), None);
    assert_eq!(next_unloaded(&root, 1), Some(vec![]));
    let file = build_file_tree("/r/a.txt", false);
    assert_eq!(next_unloaded(&file, PRELOAD_DEPTH), None);
    assert_eq!(PRELOAD_DEPTH, 3);
}

#[test]
fn path_leads_to_the_node() {
    let root = sample_tree();
    assert_eq!(get_current_node(&root, &[]).path, "/work/root");
    assert_eq!(get_current_node(&root, &[2]).path, "/work/root/sub");
    assert_eq!(get_current_node(&root, &[2, 1]).path, "/work/root/sub/y.txt");
    assert!(is_valid_path(&root, &[2, 1]));
}

#[test]
fn index_without_a_child_is_passed_over() {
    let root = sample_tree();
    assert_eq!(get_current_node(&root, &[7]).path, "/work/root");
    assert_eq!(get_current_node(&root, &[7, 2]).path, "/work/root/sub");
    assert!(!is_valid_path(&root, &[7]));
    assert!(!is_valid_path(&root, &[2, 2]));
    assert!(!is_valid_path(&root, &[0, 0]));
}

#[test]
fn node_reached_for_change_is_changed_in_the_tree() {
    let mut root = sample_tree();
    {
        let node = get_current_node_mut(&mut root, &[2, 0]);
        assert_eq!(node.path, "/work/root/sub/x.txt");
        node.status = Status::Modified;
    }
    assert_eq!(root.children[2].children[0].status, Status::Modified);
    assert_eq!(root.children[2].children[1].status, Status::Untouched);
    assert_eq!(root.children[0].status, Status::Untouched);
    get_current_node_mut(&mut root, &[]).status = Status::Added;
    assert_eq!(root.status, Status::Added);
}

#[test]
fn weights_follow_kind_and_children() {
    let root = sample_tree();
    assert_eq!(node_weight(&root.children[0]), 1);
    assert_eq!(node_weight(&root.children[2]), 3);
    assert_eq!(node_weight(&root), 4);
    assert_eq!(node_weight(&build_file_tree("/r/empty", true)), 3);
}

#[test]
fn directory_is_laid_out_inside_its_border() {
    let mut root = sample_tree();
    layout_directory(&mut root, rect(0, 0, 42, 12));
    assert_eq!(root.rect, rect(0, 0, 42, 12));
    assert_eq!(root.children[0].rect, rect(1, 1, 40, 2));
    assert_eq!(root.children[1].rect, rect(1, 3, 40, 2));
    assert_eq!(root.children[2].rect, rect(1, 5, 40, 4));
    assert_eq!(root.children[2].children[0].rect, rect(2, 6, 38, 1));
    assert_eq!(root.children[2].children[1].rect, rect(2, 7, 38, 1));
    assert_eq!(root.children[0].name, "a.txt");
    assert_eq!(root.children[2].children.len(), 2);
}

#[test]
fn layout_stops_three_levels_down() {
    let mut root = build_file_tree("/r", true);
    load_children(&mut root, &[probe("/r/a", true)]);
    load_children(&mut root.children[0], &[probe("/r/a/b", true)]);
    load_children(&mut root.children[0].children[0], &[probe("/r/a/b/c", true)]);
    load_children(&mut root.children[0].children[0].children[0], &[probe("/r/a/b/c/d", false)]);
    layout_directory(&mut root, rect(0, 0, 30, 30));
    assert_eq!(root.children[0].rect, rect(1, 1, 28, 28));
    assert_eq!(root.children[0].children[0].rect, rect(2, 2, 26, 26));
    assert_eq!(root.children[0].children[0].children[0].rect, rect(3, 3, 24, 24));
    assert_eq!(root.children[0].children[0].children[0].children[0].rect, rect(0, 0, 0, 0));
}

#[test]
fn layout_in_a_tiny_area_gives_empty_rectangles() {
    let mut root = sample_tree();
    layout_directory(&mut root, rect(0, 0, 1, 1));
    assert_eq!(root.rect, rect(0, 0, 1, 1));
    for child in root.children.iter() {
        assert_eq!(child.rect.width, 0);
        assert_eq!(child.rect.height, 0);
    }
}

#[test]
fn layout_of_no_children_changes_nothing() {
    let mut none: Vec<FileNode> = Vec::new();
    layout_nodes(&mut none, rect(0, 0, 10, 10), 0);
    assert!(none.is_empty());
    let mut root = build_file_tree("/r", true);
    layout_directory(&mut root, rect(2, 2, 10, 10));
    assert_eq!(root.rect, rect(2, 2, 10, 10));
}

#[test]
fn nested_children_keep_their_rectangles_at_the_last_level() {
    let mut nodes = vec![sample_tree()];
    layout_nodes(&mut nodes, rect(0, 0, 20, 20), 2);
    assert_eq!(nodes[0].rect, rect(0, 0, 20, 20));
    assert_eq!(nodes[0].children[0].rect, rect(0, 0, 0, 0));
}
