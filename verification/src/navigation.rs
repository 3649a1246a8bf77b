//! The cursor: which directory is viewed, and which of its children is
//! highlighted, as the commands of the user move it.

use vstd::prelude::*;
use crate::tree::{lemma_model_children, FileNode, NodeView};
use crate::walk::{get_current_node, is_valid_path, resolve, valid_path};

verus! {

/// What the user can ask for.
#[derive(Clone, Copy, Debug, PartialEq, Eq, Structural)]
pub enum Command {
    MoveUp,
    MoveDown,
    MoveInto,
    MoveOut,
    Quit,
    Select,
}

/// A key that the user pressed.
#[derive(Clone, Copy, Debug, PartialEq, Eq, Structural)]
pub enum Key {
    Char(char),
    Up,
    Down,
    Left,
    Right,
    Enter,
    Other,
}

/// The command that `key` stands for: the arrows move the cursor, the enter key
/// chooses, and `q` quits. Other keys stand for nothing.
pub open spec fn bound_to(key: Key) -> Option<Command> {
    match key {
        Key::Up => Some(Command::MoveUp),
        Key::Down => Some(Command::MoveDown),
        Key::Right => Some(Command::MoveInto),
        Key::Left => Some(Command::MoveOut),
        Key::Enter => Some(Command::Select),
        Key::Char(c) => if c == 'q' {
            Some(Command::Quit)
        } else {
            None
        },
        Key::Other => None,
    }
}

/// The command that `key` stands for, if it stands for one.
pub fn command_for_key(key: Key) -> (command: Option<Command>)
    ensures
        command == bound_to(key),
{
    match key {
        Key::Up => Some(Command::MoveUp),
        Key::Down => Some(Command::MoveDown),
        Key::Right => Some(Command::MoveInto),
        Key::Left => Some(Command::MoveOut),
        Key::Enter => Some(Command::Select),
        Key::Char(c) => if c == 'q' {
            Some(Command::Quit)
        } else {
            None
        },
        Key::Other => None,
    }
}

/// What a command leads to.
#[derive(Clone, Debug, PartialEq, Eq)]
pub enum Outcome {
    /// The session goes on.
    Continue,
    /// A directory was entered: the levels below it are to be listed ahead, and
    /// the session goes on.
    Entered,
    /// The session ends without a choice.
    Quit,
    /// The session ends with the path that was chosen.
    Selected(String),
}

/// The cursor. `path_stack` holds the index chosen at every level on the way
/// down to the viewed directory; `selection_stack` the index highlighted at every
/// level, the viewed one included.
#[derive(Clone, Debug, PartialEq, Eq)]
pub struct Navigation {
    pub path_stack: Vec<usize>,
    pub selection_stack: Vec<usize>,
}

/// The cursor as a value.
pub struct Cursor {
    pub path: Seq<usize>,
    pub selection: Seq<usize>,
}

impl View for Navigation {
    type V = Cursor;

    open spec fn view(&self) -> Cursor {
        Cursor { path: self.path_stack@, selection: self.selection_stack@ }
    }
}

/// The directory that the cursor views.
pub open spec fn viewed(root: NodeView, cursor: Cursor) -> NodeView {
    resolve(root, cursor.path)
}

/// The cursor fits the tree: it highlights one index more than it has chosen,
/// the chosen indices lead down the tree and are the ones highlighted on the
/// way, and the index highlighted in the viewed directory names one of its
/// children, or is zero where it has none.
pub open spec fn consistent(root: NodeView, cursor: Cursor) -> bool {
    &&& cursor.selection.len() == cursor.path.len() + 1
    &&& valid_path(root, cursor.path)
    &&& forall|k: int| 0 <= k < cursor.path.len() ==> cursor.path[k] == cursor.selection[k]
    &&& (cursor.selection.last() < viewed(root, cursor).children.len() || (viewed(
        root,
        cursor,
    ).children.len() == 0 && cursor.selection.last() == 0))
}

/// The cursor at the start: the root is viewed and its first child highlighted.
pub open spec fn at_root() -> Cursor {
    Cursor { path: Seq::empty(), selection: seq![0usize] }
}

/// The cursor with `index` highlighted in the viewed directory.
pub open spec fn highlighting(cursor: Cursor, index: usize) -> Cursor {
    Cursor { selection: cursor.selection.update(cursor.selection.len() - 1, index), ..cursor }
}

/// The cursor after a step up: the child before is highlighted, if there is one.
pub open spec fn moved_up(cursor: Cursor) -> Cursor {
    if cursor.selection.len() > 0 && cursor.selection.last() > 0 {
        highlighting(cursor, (cursor.selection.last() - 1) as usize)
    } else {
        cursor
    }
}

/// The cursor after a step down: the child after is highlighted, if there is one.
pub open spec fn moved_down(root: NodeView, cursor: Cursor) -> Cursor {
    if cursor.selection.len() > 0 && cursor.selection.last() + 1 < viewed(
        root,
        cursor,
    ).children.len() {
        highlighting(cursor, (cursor.selection.last() + 1) as usize)
    } else {
        cursor
    }
}

/// The highlighted child is a directory, which the cursor can enter.
pub open spec fn can_enter(root: NodeView, cursor: Cursor) -> bool {
    &&& cursor.selection.len() > 0
    &&& cursor.selection.last() < viewed(root, cursor).children.len()
    &&& viewed(root, cursor).children[cursor.selection.last() as int].is_dir
}

/// The cursor after a step into the highlighted child: where that is a
/// directory, it is viewed and its first child highlighted.
pub open spec fn moved_into(root: NodeView, cursor: Cursor) -> Cursor {
    if can_enter(root, cursor) {
        Cursor {
            path: cursor.path.push(cursor.selection.last()),
            selection: cursor.selection.push(0),
        }
    } else {
        cursor
    }
}

/// The cursor after a step out: the directory above is viewed again, with the
/// child highlighted that was entered. At the root nothing changes.
pub open spec fn moved_out(cursor: Cursor) -> Cursor {
    if cursor.path.len() > 0 {
        Cursor {
            path: cursor.path.drop_last(),
            selection: if cursor.selection.len() > 0 {
                cursor.selection.drop_last()
            } else {
                cursor.selection
            },
        }
    } else {
        cursor
    }
}

/// The path of the highlighted child, where the viewed directory has one.
pub open spec fn highlighted(root: NodeView, cursor: Cursor) -> Option<Seq<char>> {
    if cursor.selection.len() > 0 && cursor.selection.last() < viewed(
        root,
        cursor,
    ).children.len() {
        Some(viewed(root, cursor).children[cursor.selection.last() as int].path)
    } else {
        None
    }
}

/// The path that a choice yields: that of the highlighted child, or that of the
/// viewed directory where it has no children.
pub open spec fn selected(root: NodeView, cursor: Cursor) -> Seq<char> {
    match highlighted(root, cursor) {
        Some(path) => path,
        None => viewed(root, cursor).path,
    }
}

/// The cursor after `command`.
pub open spec fn stepped(root: NodeView, cursor: Cursor, command: Command) -> Cursor {
    match command {
        Command::MoveUp => moved_up(cursor),
        Command::MoveDown => moved_down(root, cursor),
        Command::MoveInto => moved_into(root, cursor),
        Command::MoveOut => moved_out(cursor),
        Command::Quit => cursor,
        Command::Select => cursor,
    }
}

impl Navigation {
    /// The cursor at the start.
    pub fn new() -> (nav: Navigation)
        ensures
            nav@ == at_root(),
    {
        let mut selection_stack: Vec<usize> = Vec::new();
        selection_stack.push(0);
        let nav = Navigation { path_stack: Vec::new(), selection_stack };
        assert(nav@.selection =~= seq![0usize]);
        nav
    }

    /// Highlights the child before the highlighted one, if there is one.
    pub fn move_up(&mut self)
        ensures
            final(self)@ == moved_up(old(self)@),
    {
        let n = self.selection_stack.len();
        if n > 0 {
            let top = self.selection_stack[n - 1];
            if top > 0 {
                self.selection_stack.set(n - 1, top - 1);
            }
        }
    }

    /// Highlights the child after the highlighted one, if there is one.
    pub fn move_down(&mut self, root: &FileNode)
        ensures
            final(self)@ == moved_down(root@, old(self)@),
    {
        let n = self.selection_stack.len();
        if n > 0 {
            let current = get_current_node(root, self.path_stack.as_slice());
            proof {
                lemma_model_children(*current);
            }
            let count = current.children.len();
            let top = self.selection_stack[n - 1];
            if top < count && top + 1 < count {
                self.selection_stack.set(n - 1, top + 1);
            }
        }
    }

    /// Enters the highlighted child, where it is a directory, and says whether it
    /// did.
    pub fn move_into(&mut self, root: &FileNode) -> (entered: bool)
        ensures
            final(self)@ == moved_into(root@, old(self)@),
            entered == can_enter(root@, old(self)@),
    {
        let n = self.selection_stack.len();
        if n == 0 {
            return false;
        }
        let top = self.selection_stack[n - 1];
        let current = get_current_node(root, self.path_stack.as_slice());
        proof {
            lemma_model_children(*current);
        }
        if top < current.children.len() && current.children[top].is_dir {
            self.path_stack.push(top);
            self.selection_stack.push(0);
            true
        } else {
            false
        }
    }

    /// Leaves the viewed directory for the one above, unless it is the root.
    pub fn move_out(&mut self)
        ensures
            final(self)@ == moved_out(old(self)@),
    {
        if self.path_stack.len() > 0 {
            self.path_stack.pop();
            self.selection_stack.pop();
        }
    }

    /// The path of the highlighted child, where the viewed directory has one.
    pub fn highlighted_child(&self, root: &FileNode) -> (path: Option<String>)
        ensures
            match path {
                Some(p) => highlighted(root@, self@) == Some(p@),
                None => highlighted(root@, self@) is None,
            },
    {
        let current = get_current_node(root, self.path_stack.as_slice());
        proof {
            lemma_model_children(*current);
        }
        let n = self.selection_stack.len();
        if n > 0 && self.selection_stack[n - 1] < current.children.len() {
            Some(current.children[self.selection_stack[n - 1]].path.clone())
        } else {
            None
        }
    }

    /// The path that a choice yields now.
    pub fn selected_path(&self, root: &FileNode) -> (path: String)
        ensures
            path@ == selected(root@, self@),
    {
        match self.highlighted_child(root) {
            Some(path) => path,
            None => get_current_node(root, self.path_stack.as_slice()).path.clone(),
        }
    }

    /// Carries out `command`: the cursor moves as the command asks, and the
    /// outcome says how the session goes on.
    pub fn apply(&mut self, root: &FileNode, command: Command) -> (outcome: Outcome)
        ensures
            final(self)@ == stepped(root@, old(self)@, command),
            match command {
                Command::Quit => outcome == Outcome::Quit,
                Command::Select => outcome matches Outcome::Selected(path) && path@ == selected(
                    root@,
                    old(self)@,
                ),
                Command::MoveInto => outcome == if can_enter(root@, old(self)@) {
                    Outcome::Entered
                } else {
                    Outcome::Continue
                },
                _ => outcome == Outcome::Continue,
            },
    {
        match command {
            Command::MoveUp => {
                self.move_up();
                Outcome::Continue
            },
            Command::MoveDown => {
                self.move_down(root);
                Outcome::Continue
            },
            Command::MoveInto => {
                if self.move_into(root) {
                    Outcome::Entered
                } else {
                    Outcome::Continue
                }
            },
            Command::MoveOut => {
                self.move_out();
                Outcome::Continue
            },
            Command::Quit => Outcome::Quit,
            Command::Select => Outcome::Selected(self.selected_path(root)),
        }
    }

    /// Whether the cursor fits the tree below `root`.
    pub fn is_consistent(&self, root: &FileNode) -> (ok: bool)
        ensures
            ok == consistent(root@, self@),
    {
        let depth = self.path_stack.len();
        if self.selection_stack.len() == 0 || self.selection_stack.len() - 1 != depth {
            return false;
        }
        let mut k: usize = 0;
        while k < depth
            invariant
                k <= depth,
                depth == self.path_stack@.len(),
                self.selection_stack@.len() == depth + 1,
                forall|j: int| 0 <= j < k ==> self.path_stack@[j] == self.selection_stack@[j],
            decreases depth - k,
        {
            if self.path_stack[k] != self.selection_stack[k] {
                return false;
            }
            k += 1;
        }
        if !is_valid_path(root, self.path_stack.as_slice()) {
            return false;
        }
        let current = get_current_node(root, self.path_stack.as_slice());
        proof {
            lemma_model_children(*current);
        }
        let count = current.children.len();
        let top = self.selection_stack[depth];
        top < count || (count == 0 && top == 0)
    }
}

} // verus!
