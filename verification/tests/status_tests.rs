use dirview::overlay::{build_status_map, update_tree_status, StatusEntry, StatusMap};
use dirview::paths::{entry_label, pick_label, pick_shown, relative_label};
use dirview::status::{
    classify, color_for_git_status, status_color, Color, Status, INDEX_DELETED, INDEX_MODIFIED,
    INDEX_NEW, WT_DELETED, WT_MODIFIED, WT_NEW,
};
use dirview::tree::{build_file_tree, load_children, FileNode, Probe};

fn probe(path: &str, is_dir: bool) -> Probe {
    Probe { path: path.to_string(), is_dir: Some(is_dir) }
}

fn entry(path: &str, flags: u32) -> StatusEntry {
    StatusEntry { path: Some(path.to_string()), flags }
}

fn repo_tree() -> FileNode {
    let mut root = build_file_tree("/repo/work", true);
    load_children(
        &mut root,
        &[probe("/repo/work/a.txt", false), probe("/repo/work/b.txt", false), probe("/repo/work/sub", true)],
    );
    load_children(&mut root.children[2], &[probe("/repo/work/sub/x.txt", false)]);
    root
}

#[test]
fn flags_are_those_of_the_repository_library() {
    assert_eq!(INDEX_NEW, git2::Status::INDEX_NEW.bits());
    assert_eq!(INDEX_MODIFIED, git2::Status::INDEX_MODIFIED.bits());
    assert_eq!(INDEX_DELETED, git2::Status::INDEX_DELETED.bits());
    assert_eq!(WT_NEW, git2::Status::WT_NEW.bits());
    assert_eq!(WT_MODIFIED, git2::Status::WT_MODIFIED.bits());
    assert_eq!(WT_DELETED, git2::Status::WT_DELETED.bits());
}

#[test]
fn each_flag_has_its_status() {
    assert_eq!(classify(git2::Status::INDEX_NEW.bits()), Status::Added);
    assert_eq!(classify(git2::Status::WT_NEW.bits()), Status::Added);
    assert_eq!(classify(git2::Status::INDEX_MODIFIED.bits()), Status::Modified);
    assert_eq!(classify(git2::Status::WT_MODIFIED.bits()), Status::Modified);
    assert_eq!(classify(git2::Status::INDEX_DELETED.bits()), Status::Deleted);
    assert_eq!(classify(git2::Status::WT_DELETED.bits()), Status::Deleted);
}

#[test]
fn no_flag_leaves_the_entry_untouched() {
    assert_eq!(classify(0), Status::Untouched);
    assert_eq!(classify(git2::Status::CURRENT.bits()), Status::Untouched);
    assert_eq!(classify(git2::Status::IGNORED.bits()), Status::Untouched);
    assert_eq!(classify(git2::Status::INDEX_RENAMED.bits()), Status::Untouched);
    assert_eq!(classify(git2::Status::CONFLICTED.bits() | git2::Status::WT_TYPECHANGE.bits()), Status::Untouched);
}

#[test]
fn new_wins_over_changed_and_changed_over_removed() {
    assert_eq!(classify(WT_NEW | INDEX_MODIFIED | WT_DELETED), Status::Added);
    assert_eq!(classify(INDEX_NEW | WT_DELETED), Status::Added);
    assert_eq!(classify(WT_MODIFIED | INDEX_DELETED), Status::Modified);
    assert_eq!(classify(INDEX_MODIFIED | WT_DELETED | git2::Status::IGNORED.bits()), Status::Modified);
    assert_eq!(classify(INDEX_DELETED | WT_DELETED), Status::Deleted);
}

#[test]
fn bits_without_a_meaning_are_ignored() {
    assert_eq!(classify(0x20), Status::Untouched);
    assert_eq!(classify(0xffff_0000), Status::Untouched);
    assert_eq!(classify(0xffff_ffff), Status::Added);
}

#[test]
fn statuses_have_their_colours() {
    assert_eq!(status_color(Status::Added), Color::Green);
    assert_eq!(status_color(Status::Modified), Color::Yellow);
    assert_eq!(status_color(Status::Deleted), Color::Red);
    assert_eq!(status_color(Status::Untouched), Color::White);
}

#[test]
fn colour_follows_the_flags() {
    assert_eq!(color_for_git_status(None), Color::White);
    assert_eq!(color_for_git_status(Some(0)), Color::White);
    assert_eq!(color_for_git_status(Some(WT_NEW)), Color::Green);
    assert_eq!(color_for_git_status(Some(WT_MODIFIED)), Color::Yellow);
    assert_eq!(color_for_git_status(Some(INDEX_DELETED)), Color::Red);
}

#[test]
fn map_holds_what_was_inserted_last() {
    let mut map = StatusMap::new();
    assert_eq!(map.get(&"a".to_string()), None);
    map.insert("a".to_string(), 1);
    map.insert("b".to_string(), 2);
    assert_eq!(map.get(&"a".to_string()), Some(1));
    assert_eq!(map.get(&"b".to_string()), Some(2));
    map.insert("a".to_string(), 4);
    assert_eq!(map.get(&"a".to_string()), Some(4));
    assert_eq!(map.get(&"b".to_string()), Some(2));
    assert_eq!(map.get(&"c".to_string()), None);
}

#[test]
fn scan_results_without_a_path_are_left_out() {
    let map = build_status_map(&[
        entry("a.txt", WT_NEW),
        StatusEntry { path: None, flags: WT_DELETED },
        entry("sub/x.txt", WT_MODIFIED),
    ]);
    assert_eq!(map.get(&"a.txt".to_string()), Some(WT_NEW));
    assert_eq!(map.get(&"sub/x.txt".to_string()), Some(WT_MODIFIED));
    assert_eq!(map.get(&"".to_string()), None);
    assert_eq!(build_status_map(&[]).get(&"a.txt".to_string()), None);
}

#[test]
fn overlay_sets_the_status_of_keyed_nodes_only() {
    let mut root = repo_tree();
    let map = build_status_map(&[
        entry("work/a.txt", WT_NEW),
        entry("work/sub/x.txt", INDEX_MODIFIED),
        entry("work/elsewhere.txt", WT_DELETED),
    ]);
    update_tree_status(&mut root, Some("/repo"), &map);
    assert_eq!(root.status, Status::Untouched);
    assert_eq!(root.children[0].status, Status::Added);
    assert_eq!(root.children[1].status, Status::Untouched);
    assert_eq!(root.children[2].status, Status::Untouched);
    assert_eq!(root.children[2].children[0].status, Status::Modified);
    assert_eq!(root.children[0].path, "/repo/work/a.txt");
    assert_eq!(root.children.len(), 3);
}

#[test]
fn overlay_with_flags_that_say_nothing_resets_the_status() {
    let mut root = repo_tree();
    root.children[1].status = Status::Deleted;
    root.children[0].status = Status::Deleted;
    let map = build_status_map(&[entry("work/b.txt", 0)]);
    update_tree_status(&mut root, Some("/repo"), &map);
    assert_eq!(root.children[1].status, Status::Untouched);
    assert_eq!(root.children[0].status, Status::Deleted);
}

#[test]
fn overlay_reaches_the_root_by_the_empty_key() {
    let mut root = repo_tree();
    let map = build_status_map(&[entry("", WT_NEW), entry("a.txt", WT_MODIFIED)]);
    update_tree_status(&mut root, Some("/repo/work"), &map);
    assert_eq!(root.status, Status::Added);
    assert_eq!(root.children[0].status, Status::Modified);
}

#[test]
fn without_a_repository_every_node_stays_untouched() {
    let mut root = repo_tree();
    let map = build_status_map(&[entry("work/a.txt", WT_NEW), entry("a.txt", WT_NEW)]);
    update_tree_status(&mut root, None, &map);
    assert_eq!(root.status, Status::Untouched);
    for child in root.children.iter() {
        assert_eq!(child.status, Status::Untouched);
    }
    assert_eq!(root.children[2].children[0].status, Status::Untouched);
    update_tree_status(&mut root, Some("/repo"), &StatusMap::new());
    for child in root.children.iter() {
        assert_eq!(child.status, Status::Untouched);
    }
}

#[test]
fn nodes_outside_the_base_stay_as_they_are() {
    let mut root = repo_tree();
    let map = build_status_map(&[entry("work/a.txt", WT_NEW), entry("a.txt", WT_NEW)]);
    update_tree_status(&mut root, Some("/other"), &map);
    assert_eq!(root.children[0].status, Status::Untouched);
}

#[test]
fn label_is_the_last_component() {
    assert_eq!(entry_label("/a/b/c.txt"), "c.txt");
    assert_eq!(entry_label("/a/b/"), "b");
    assert_eq!(entry_label("plain"), "plain");
    assert_eq!(entry_label("/a/b/.."), "/a/b/..");
    assert_eq!(entry_label(""), "");
}

#[test]
fn label_falls_back_to_the_path() {
    assert_eq!(pick_label("/a/b", Some("b".to_string())), "b");
    assert_eq!(pick_label("/a/b", None), "/a/b");
}

#[test]
fn shown_path_is_relative_to_the_root() {
    assert_eq!(relative_label("/r/sub/x.txt", "/r"), "sub/x.txt");
    assert_eq!(relative_label("/r", "/r"), "");
    assert_eq!(relative_label("/elsewhere/x", "/r"), "/elsewhere/x");
    assert_eq!(relative_label("/rx/y", "/r"), "/rx/y");
}

#[test]
fn shown_path_falls_back_to_the_path() {
    assert_eq!(pick_shown("/r/x", Some("x".to_string())), "x");
    assert_eq!(pick_shown("/r/x", None), "/r/x");
}
