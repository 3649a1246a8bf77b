use dirview::navigation::{command_for_key, Command, Key, Navigation, Outcome};
use dirview::tree::{build_file_tree, load_children, FileNode, Probe};

fn probe(path: &str, is_dir: bool) -> Probe {
    Probe { path: path.to_string(), is_dir: Some(is_dir) }
}

fn browsed_tree() -> FileNode {
    let mut root = build_file_tree("/home/me/project", true);
    load_children(
        &mut root,
        &[
            probe("/home/me/project/a.txt", false),
            probe("/home/me/project/b.txt", false),
            probe("/home/me/project/sub", true),
        ],
    );
    load_children(
        &mut root.children[2],
        &[probe("/home/me/project/sub/x.txt", false), probe("/home/me/project/sub/empty", true)],
    );
    load_children(&mut root.children[2].children[1], &[]);
    root
}

#[test]
fn cursor_starts_at_the_first_child_of_the_root() {
    let nav = Navigation::new();
    assert!(nav.path_stack.is_empty());
    assert_eq!(nav.selection_stack, vec![0]);
    assert!(nav.is_consistent(&browsed_tree()));
}

#[test]
fn up_stops_at_the_first_child() {
    let mut nav = Navigation::new();
    nav.move_up();
    assert_eq!(nav.selection_stack, vec![0]);
    nav.selection_stack = vec![2];
    nav.move_up();
    assert_eq!(nav.selection_stack, vec![1]);
    nav.move_up();
    nav.move_up();
    assert_eq!(nav.selection_stack, vec![0]);
}

#[test]
fn down_stops_at_the_last_child() {
    let root = browsed_tree();
    let mut nav = Navigation::new();
    nav.move_down(&root);
    assert_eq!(nav.selection_stack, vec![1]);
    nav.move_down(&root);
    assert_eq!(nav.selection_stack, vec![2]);
    nav.move_down(&root);
    assert_eq!(nav.selection_stack, vec![2]);
    assert!(nav.is_consistent(&root));
}

#[test]
fn moves_in_an_empty_directory_change_nothing() {
    let root = browsed_tree();
    let mut nav = Navigation { path_stack: vec![2, 1], selection_stack: vec![2, 1, 0] };
    assert!(nav.is_consistent(&root));
    nav.move_down(&root);
    assert_eq!(nav.selection_stack, vec![2, 1, 0]);
    nav.move_up();
    assert_eq!(nav.selection_stack, vec![2, 1, 0]);
    assert!(!nav.move_into(&root));
    assert_eq!(nav.path_stack, vec![2, 1]);
}

#[test]
fn into_a_file_changes_nothing() {
    let root = browsed_tree();
    let mut nav = Navigation::new();
    assert!(!nav.move_into(&root));
    assert!(nav.path_stack.is_empty());
    assert_eq!(nav.selection_stack, vec![0]);
    assert_eq!(nav.apply(&root, Command::MoveInto), Outcome::Continue);
    assert_eq!(nav, Navigation::new());
}

#[test]
fn into_a_directory_views_it() {
    let root = browsed_tree();
    let mut nav = Navigation { path_stack: vec![], selection_stack: vec![2] };
    assert_eq!(nav.apply(&root, Command::MoveInto), Outcome::Entered);
    assert_eq!(nav.path_stack, vec![2]);
    assert_eq!(nav.selection_stack, vec![2, 0]);
    assert!(nav.is_consistent(&root));
    nav.move_down(&root);
    assert!(nav.move_into(&root));
    assert_eq!(nav.path_stack, vec![2, 1]);
    assert_eq!(nav.selection_stack, vec![2, 1, 0]);
}

#[test]
fn out_at_the_root_changes_nothing() {
    let mut nav = Navigation { path_stack: vec![], selection_stack: vec![1] };
    nav.move_out();
    assert!(nav.path_stack.is_empty());
    assert_eq!(nav.selection_stack, vec![1]);
}

#[test]
fn out_returns_to_the_entered_child() {
    let root = browsed_tree();
    let mut nav = Navigation { path_stack: vec![2], selection_stack: vec![2, 1] };
    assert_eq!(nav.apply(&root, Command::MoveOut), Outcome::Continue);
    assert!(nav.path_stack.is_empty());
    assert_eq!(nav.selection_stack, vec![2]);
    assert!(nav.is_consistent(&root));
}

#[test]
fn confirm_yields_the_path_of_the_highlighted_child() {
    let root = browsed_tree();
    let mut nav = Navigation::new();
    assert_eq!(nav.apply(&root, Command::MoveDown), Outcome::Continue);
    let outcome = nav.apply(&root, Command::Select);
    assert_eq!(outcome, Outcome::Selected("/home/me/project/b.txt".to_string()));
    assert_eq!(nav.selection_stack, vec![1]);
}

#[test]
fn confirm_in_an_empty_directory_yields_the_directory() {
    let root = browsed_tree();
    let nav = Navigation { path_stack: vec![2, 1], selection_stack: vec![2, 1, 0] };
    assert_eq!(nav.selected_path(&root), "/home/me/project/sub/empty");
    let unlisted = build_file_tree("/nowhere", true);
    assert_eq!(Navigation::new().selected_path(&unlisted), "/nowhere");
}

#[test]
fn quit_ends_the_session_and_moves_nothing() {
    let root = browsed_tree();
    let mut nav = Navigation { path_stack: vec![2], selection_stack: vec![2, 1] };
    assert_eq!(nav.apply(&root, Command::Quit), Outcome::Quit);
    assert_eq!(nav.path_stack, vec![2]);
    assert_eq!(nav.selection_stack, vec![2, 1]);
}

#[test]
fn up_and_down_go_through_the_commands() {
    let root = browsed_tree();
    let mut nav = Navigation::new();
    assert_eq!(nav.apply(&root, Command::MoveDown), Outcome::Continue);
    assert_eq!(nav.apply(&root, Command::MoveDown), Outcome::Continue);
    assert_eq!(nav.apply(&root, Command::MoveUp), Outcome::Continue);
    assert_eq!(nav.selection_stack, vec![1]);
}

#[test]
fn cursor_that_does_not_fit_is_told() {
    let root = browsed_tree();
    assert!(!Navigation { path_stack: vec![], selection_stack: vec![3] }.is_consistent(&root));
    assert!(!Navigation { path_stack: vec![2], selection_stack: vec![2] }.is_consistent(&root));
    assert!(!Navigation { path_stack: vec![2], selection_stack: vec![1, 0] }.is_consistent(&root));
    assert!(!Navigation { path_stack: vec![5], selection_stack: vec![5, 0] }.is_consistent(&root));
    assert!(!Navigation { path_stack: vec![], selection_stack: vec![] }.is_consistent(&root));
    assert!(Navigation { path_stack: vec![2], selection_stack: vec![2, 1] }.is_consistent(&root));
}

#[test]
fn moves_without_a_highlight_change_nothing() {
    let root = browsed_tree();
    let mut nav = Navigation { path_stack: vec![], selection_stack: vec![] };
    nav.move_up();
    nav.move_down(&root);
    assert!(!nav.move_into(&root));
    assert!(nav.selection_stack.is_empty());
    assert_eq!(nav.selected_path(&root), "/home/me/project");
}

#[test]
fn listing_ahead_keeps_the_cursor_fitting() {
    let mut root = build_file_tree("/r", true);
    let nav = Navigation::new();
    assert!(nav.is_consistent(&root));
    load_children(&mut root, &[probe("/r/d", true), probe("/r/f", false)]);
    assert!(nav.is_consistent(&root));
    load_children(&mut root.children[0], &[probe("/r/d/x", false)]);
    assert!(nav.is_consistent(&root));
}

#[test]
fn keys_stand_for_their_commands() {
    assert_eq!(command_for_key(Key::Up), Some(Command::MoveUp));
    assert_eq!(command_for_key(Key::Down), Some(Command::MoveDown));
    assert_eq!(command_for_key(Key::Right), Some(Command::MoveInto));
    assert_eq!(command_for_key(Key::Left), Some(Command::MoveOut));
    assert_eq!(command_for_key(Key::Enter), Some(Command::Select));
    assert_eq!(command_for_key(Key::Char('q')), Some(Command::Quit));
}

#[test]
fn other_keys_stand_for_nothing() {
    assert_eq!(command_for_key(Key::Char('Q')), None);
    assert_eq!(command_for_key(Key::Char('x')), None);
    assert_eq!(command_for_key(Key::Other), None);
}

#[test]
fn highlighted_child_is_there_where_the_directory_has_children() {
    let root = browsed_tree();
    let nav = Navigation { path_stack: vec![2], selection_stack: vec![2, 0] };
    assert_eq!(nav.highlighted_child(&root), Some("/home/me/project/sub/x.txt".to_string()));
    let nav = Navigation { path_stack: vec![2, 1], selection_stack: vec![2, 1, 0] };
    assert_eq!(nav.highlighted_child(&root), None);
}
