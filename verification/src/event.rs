//! Keys and mouse events → state changes.
use vstd::prelude::*;
use crate::app::{App, AppView, Confirm, Mode};
use crate::ui::{build_tree, contains, panes, spec_contains, spec_panes, tree_rows, Area, TreeRow, TreeRowView};

verus! {

/// A key, as far as the browser tells keys apart.
#[derive(Debug, Clone, Copy, PartialEq, Eq, Structural)]
pub enum Key {
    Char(char),
    Up,
    Down,
    Left,
    Right,
    PageUp,
    PageDown,
    Enter,
    Esc,
    Other,
}

/// A key press, and whether Control was held.
#[derive(Debug, Clone, Copy, PartialEq, Eq, Structural)]
pub struct KeyPress {
    pub key: Key,
    pub ctrl: bool,
}

#[derive(Debug, Clone, Copy, PartialEq, Eq, Structural)]
pub enum MouseKind {
    ScrollDown,
    ScrollUp,
    /// The left button went down.
    LeftDown,
    Other,
}

/// A mouse event at a terminal cell.
#[derive(Debug, Clone, Copy, PartialEq, Eq, Structural)]
pub struct Mouse {
    pub kind: MouseKind,
    pub column: u16,
    pub row: u16,
}

impl AppView {
    /// `j`/Down: next item, or scroll while a file's diff is shown.
    pub open spec fn key_down(self) -> AppView {
        match self.mode {
            Mode::List | Mode::Tree => self.select(1isize),
            Mode::FileDiff => self.scroll_by(3i32),
        }
    }

    /// `k`/Up: previous item, or scroll while a file's diff is shown.
    pub open spec fn key_up(self) -> AppView {
        match self.mode {
            Mode::List | Mode::Tree => self.select(-1isize),
            Mode::FileDiff => self.scroll_by(-3i32),
        }
    }

    /// `l`/Right: drill in, stash → file tree → file diff.
    pub open spec fn key_in(self) -> AppView {
        match self.mode {
            Mode::List => self.enter_tree(),
            Mode::Tree => self.enter_file_diff(),
            Mode::FileDiff => self,
        }
    }

    /// `h`/Left: go back a level.
    pub open spec fn key_out(self) -> AppView {
        match self.mode {
            Mode::FileDiff => self.back_to_tree(),
            Mode::Tree => self.back_to_list(),
            Mode::List => self,
        }
    }

    pub open spec fn quit(self) -> AppView {
        AppView { should_quit: true, ..self }
    }

    pub open spec fn ask(self, c: Confirm) -> AppView {
        AppView { confirm: Some(c), ..self }
    }

    /// A key without Control and without an open prompt.
    pub open spec fn key_plain(self, key: Key) -> AppView {
        match key {
            Key::Char(c) => if c == 'q' {
                self.quit()
            } else if c == 'j' {
                self.key_down()
            } else if c == 'k' {
                self.key_up()
            } else if c == 'p' {
                match self.mode {
                    Mode::Tree | Mode::FileDiff => self.ask(Confirm::PopFile),
                    Mode::List => self,
                }
            } else if c == 'l' {
                self.key_in()
            } else if c == 'h' {
                self.key_out()
            } else {
                self
            },
            Key::Down => self.key_down(),
            Key::Up => self.key_up(),
            Key::PageDown => self.scroll_by(10i32),
            Key::PageUp => self.scroll_by(-10i32),
            Key::Enter => self.ask(Confirm::PopStash),
            Key::Right => self.key_in(),
            Key::Left => self.key_out(),
            Key::Esc => match self.mode {
                Mode::FileDiff => self.back_to_tree(),
                Mode::Tree => self.back_to_list(),
                Mode::List => self.quit(),
            },
            Key::Other => self,
        }
    }

    /// The effect of a key press.
    pub open spec fn handle(self, k: KeyPress) -> AppView {
        if k.ctrl {
            match k.key {
                Key::Char(c) => if c == 'c' {
                    self.quit()
                } else if c == 'd' {
                    self.scroll_by(10i32)
                } else if c == 'u' {
                    self.scroll_by(-10i32)
                } else {
                    self
                },
                _ => self,
            }
        } else {
            match self.confirm {
                Some(confirm) => match k.key {
                    Key::Char(c) => if c == 'y' {
                        match confirm {
                            Confirm::PopStash => self.do_pop_stash(),
                            Confirm::PopFile => self.do_pop_file(),
                        }
                    } else if c == 'n' {
                        AppView { confirm: None, ..self }
                    } else {
                        self
                    },
                    Key::Esc => AppView { confirm: None, ..self },
                    _ => self,
                },
                None => self.key_plain(k.key),
            }
        }
    }

    pub open spec fn key_down_ok(self) -> bool {
        match self.mode {
            Mode::List | Mode::Tree => self.select_ok(1isize),
            Mode::FileDiff => self.scroll_ok(3i32),
        }
    }

    pub open spec fn key_up_ok(self) -> bool {
        match self.mode {
            Mode::List | Mode::Tree => self.select_ok(-1isize),
            Mode::FileDiff => self.scroll_ok(-3i32),
        }
    }

    /// The key press overflows nothing.
    pub open spec fn handle_ok(self, k: KeyPress) -> bool {
        if k.ctrl {
            match k.key {
                Key::Char(c) => (c == 'd' ==> self.scroll_ok(10i32)) && (c == 'u' ==> self.scroll_ok(-10i32)),
                _ => true,
            }
        } else if self.confirm is Some {
            true
        } else {
            match k.key {
                Key::Char(c) => (c == 'j' ==> self.key_down_ok()) && (c == 'k' ==> self.key_up_ok()),
                Key::Down => self.key_down_ok(),
                Key::Up => self.key_up_ok(),
                Key::PageDown => self.scroll_ok(10i32),
                Key::PageUp => self.scroll_ok(-10i32),
                _ => true,
            }
        }
    }

    /// Indices and lengths are far enough from the machine limits for any event.
    pub open spec fn in_bounds(self) -> bool {
        &&& self.stashes.len() < isize::MAX
        &&& self.files.len() < isize::MAX
        &&& self.list_i < isize::MAX
        &&& self.file_i < isize::MAX
    }

    /// A click on screen row `row` of the tree pane `right`: opens the file
    /// shown there, assuming the tree is not scrolled past the click.
    pub open spec fn click(self, row: u16, right: Area) -> AppView {
        if row < right.y + 1 {
            self
        } else {
            let line = (row - right.y - 1) + self.scroll;
            let rows = tree_rows(self.files, self.file_stats);
            if line < rows.len() {
                match rows[line] {
                    TreeRowView::File(i, _) => AppView { file_i: i, ..self }.enter_file_diff(),
                    TreeRowView::Dir(_) => self,
                }
            } else {
                self
            }
        }
    }

    /// The effect of a mouse event, with the panes at `left` and `right`. The
    /// wheel scrolls the pane under the pointer; a left click in the tree opens
    /// a file.
    pub open spec fn on_mouse(self, m: Mouse, left: Area, right: Area) -> AppView {
        let in_right = spec_contains(right, m.column, m.row);
        let in_left = spec_contains(left, m.column, m.row);
        match m.kind {
            MouseKind::ScrollDown => if in_right {
                self.scroll_by(3i32)
            } else if in_left {
                self.select_stash(1isize)
            } else {
                self
            },
            MouseKind::ScrollUp => if in_right {
                self.scroll_by(-3i32)
            } else if in_left {
                self.select_stash(-1isize)
            } else {
                self
            },
            MouseKind::LeftDown => if self.mode == Mode::Tree && in_right && right.y < u16::MAX {
                self.click(m.row, right)
            } else {
                self
            },
            MouseKind::Other => self,
        }
    }

    /// The mouse event overflows nothing.
    pub open spec fn mouse_ok(self) -> bool {
        &&& self.scroll_ok(3i32)
        &&& self.scroll_ok(-3i32)
        &&& self.select_stash_ok(1isize)
        &&& self.select_stash_ok(-1isize)
    }
}

/// Within the machine limits of `in_bounds`, every key press is safe.
pub proof fn lemma_in_bounds_handle_ok(a: AppView, k: KeyPress)
    requires
        a.in_bounds(),
    ensures
        a.handle_ok(k),
{
}

/// Within the machine limits of `in_bounds`, every mouse event is safe.
pub proof fn lemma_in_bounds_mouse_ok(a: AppView)
    requires
        a.in_bounds(),
    ensures
        a.mouse_ok(),
{
}

impl App {
    /// Whether indices and lengths are far enough from the machine limits that
    /// `handle` and `handle_mouse` may be called with any event.
    pub fn in_bounds(&self) -> (r: bool)
        ensures
            r == self@.in_bounds(),
    {
        let m = isize::MAX as usize;
        self.stashes.len() < m && self.files.len() < m && self.list_i < m && self.file_i < m
    }
}

pub fn handle(key: KeyPress, app: &mut App)
    requires
        old(app)@.handle_ok(key),
    ensures
        final(app)@ == old(app)@.handle(key),
{
    if key.ctrl {
        match key.key {
            Key::Char('c') => app.should_quit = true,
            Key::Char('d') => app.scroll_by(10),
            Key::Char('u') => app.scroll_by(-10),
            _ => {},
        }
        return;
    }
    if let Some(confirm) = app.confirm {
        match key.key {
            Key::Char('y') => match confirm {
                Confirm::PopStash => app.do_pop_stash(),
                Confirm::PopFile => app.do_pop_file(),
            },
            Key::Char('n') | Key::Esc => app.confirm = None,
            _ => {},
        }
        return;
    }
    match key.key {
        Key::Char('q') => app.should_quit = true,
        Key::Down | Key::Char('j') => match app.mode {
            Mode::List | Mode::Tree => app.select(1),
            Mode::FileDiff => app.scroll_by(3),
        },
        Key::Up | Key::Char('k') => match app.mode {
            Mode::List | Mode::Tree => app.select(-1),
            Mode::FileDiff => app.scroll_by(-3),
        },
        Key::PageDown => app.scroll_by(10),
        Key::PageUp => app.scroll_by(-10),
        Key::Enter => app.confirm = Some(Confirm::PopStash),
        Key::Char('p') => match app.mode {
            Mode::Tree | Mode::FileDiff => app.confirm = Some(Confirm::PopFile),
            Mode::List => {},
        },
        Key::Right | Key::Char('l') => match app.mode {
            Mode::List => app.enter_tree(),
            Mode::Tree => app.enter_file_diff(),
            Mode::FileDiff => {},
        },
        Key::Left | Key::Char('h') => match app.mode {
            Mode::FileDiff => app.back_to_tree(),
            Mode::Tree => app.back_to_list(),
            Mode::List => {},
        },
        Key::Esc => match app.mode {
            Mode::FileDiff => app.back_to_tree(),
            Mode::Tree => app.back_to_list(),
            Mode::List => app.should_quit = true,
        },
        _ => {},
    }
}

/// Row math assumes the tree isn't scrolled past the click, which holds whenever it
/// fits the pane (the common case). A taller tree can still be opened with j/k + l.
fn open_clicked_file(mouse: Mouse, app: &mut App, right: Area)
    requires
        right.y < u16::MAX,
    ensures
        final(app)@ == old(app)@.click(mouse.row, right),
{
    if mouse.row < right.y + 1 {
        return;
    }
    let row = mouse.row - (right.y + 1);
    let line = row as usize + app.scroll as usize;
    let rows = build_tree(&app.files, &app.file_stats);
    if line < rows.len() {
        match &rows[line] {
            TreeRow::File(i, _) => {
                app.file_i = *i;
                app.enter_file_diff();
            },
            TreeRow::Dir(_) => {},
        }
    }
}

pub fn handle_mouse(mouse: Mouse, app: &mut App, area: Area)
    requires
        old(app)@.mouse_ok(),
    ensures
        final(app)@ == old(app)@.on_mouse(mouse, spec_panes(area).0, spec_panes(area).1),
{
    let (left, right) = panes(area);
    let in_right = contains(right, mouse.column, mouse.row);
    let in_left = contains(left, mouse.column, mouse.row);
    match mouse.kind {
        MouseKind::ScrollDown => {
            if in_right {
                app.scroll_by(3);
            } else if in_left {
                app.select_stash(1);
            }
        },
        MouseKind::ScrollUp => {
            if in_right {
                app.scroll_by(-3);
            } else if in_left {
                app.select_stash(-1);
            }
        },
        MouseKind::LeftDown => {
            if app.mode == Mode::Tree && in_right && right.y < u16::MAX {
                open_clicked_file(mouse, app, right);
            }
        },
        MouseKind::Other => {},
    }
}

} // verus!
