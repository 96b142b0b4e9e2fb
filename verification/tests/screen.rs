use gitpeek::app::{App, Confirm, Mode};
use gitpeek::event::{handle_mouse, Mouse, MouseKind};
use gitpeek::git::{parse_line, parse_list};
use gitpeek::ui::{
    build_tree, centered, confirm_message, contains, footer, line_kind, main_and_footer,
    pane_title, panes, stash_label, Area, DiffLine, TreeRow,
};

fn area(x: u16, y: u16, width: u16, height: u16) -> Area {
    Area { x, y, width, height }
}

fn strings(v: &[&str]) -> Vec<String> {
    v.iter().map(|s| s.to_string()).collect()
}

fn rows(r: &[TreeRow]) -> Vec<String> {
    r.iter()
        .map(|row| match row {
            TreeRow::Dir(s) => format!("D {s}"),
            TreeRow::File(i, s) => format!("F{i} {s}"),
        })
        .collect()
}

#[test]
fn pane_geometry() {
    let screen = area(0, 0, 100, 30);
    assert_eq!(main_and_footer(screen), (area(0, 0, 100, 29), area(0, 29, 100, 1)));
    assert_eq!(panes(screen), (area(0, 0, 40, 29), area(40, 0, 60, 29)));
}

#[test]
fn contains_and_centered() {
    let a = area(10, 5, 4, 2);
    assert!(contains(a, 10, 5));
    assert!(contains(a, 13, 6));
    assert!(!contains(a, 14, 5));
    assert!(!contains(a, 9, 5));
    assert!(!contains(a, 10, 7));
    // the far edge saturates at the screen limit
    assert!(contains(area(65530, 0, 100, 1), 65534, 0));
    assert_eq!(centered(area(0, 0, 100, 29), 20, 3), area(40, 13, 20, 3));
    assert_eq!(centered(area(2, 2, 10, 2), 20, 3), area(2, 2, 10, 2));
}

#[test]
fn tree_groups_directories() {
    let files = strings(&["a.txt", "src/x.rs", "src/y.rs", "src/sub/z.rs", "b/c/d.txt"]);
    let stats = vec![(1, 0), (12, 3), (0, 4), (7, 7)];
    assert_eq!(
        rows(&build_tree(&files, &stats)),
        vec![
            "F0 a.txt  +1 -0",
            "D src/",
            "F1   x.rs  +12 -3",
            "F2   y.rs  +0 -4",
            "D   sub/",
            "F3     z.rs  +7 -7",
            "D b/",
            "D   c/",
            "F4     d.txt  +0 -0",
        ]
    );
    assert!(build_tree(&Vec::new(), &Vec::new()).is_empty());
}

#[test]
fn tree_lists_every_file_once() {
    let files = strings(&["x/a", "x/b", "y/a", "c"]);
    let stats = vec![(0, 0); 4];
    let indices: Vec<usize> = build_tree(&files, &stats)
        .iter()
        .filter_map(|r| match r {
            TreeRow::File(i, _) => Some(*i),
            TreeRow::Dir(_) => None,
        })
        .collect();
    assert_eq!(indices, vec![0, 1, 2, 3]);
}

#[test]
fn labels_and_prompts() {
    let s = parse_line("stash@{1}: On feat/x: my message").unwrap();
    assert_eq!(stash_label(&s), "stash@{1}  [feat/x] my message");
    let s = parse_line("stash@{2}: something unexpected").unwrap();
    assert_eq!(stash_label(&s), "stash@{2}  something unexpected");

    let mut app = App::new(parse_list("stash@{0}: On main: wip\n"));
    assert_eq!(pane_title(&app), "stash@{0} — diff");
    assert_eq!(footer(&app), "j/k move  l files  Enter pop stash  Ctrl-u/d scroll  q quit");
    assert_eq!(confirm_message(&app), None);
    app.confirm = Some(Confirm::PopStash);
    assert_eq!(confirm_message(&app).as_deref(), Some("Pop stash@{0}? (y/n)"));

    app.files = strings(&["a.txt"]);
    app.file_stats = vec![(1, 1)];
    app.mode = Mode::Tree;
    app.status = Some("oops".to_string());
    assert_eq!(pane_title(&app), "stash@{0} — files");
    assert_eq!(
        footer(&app),
        "j/k file  l open  p pop file  h back  Enter pop stash  Ctrl-u/d scroll  q quit  |  oops"
    );
    app.confirm = Some(Confirm::PopFile);
    assert_eq!(confirm_message(&app).as_deref(), Some("Pop only a.txt from stash@{0}? (y/n)"));
    app.mode = Mode::FileDiff;
    assert_eq!(pane_title(&app), "a.txt  (h: back)");
    app.file_i = 3;
    assert_eq!(pane_title(&app), "");
    assert_eq!(confirm_message(&app).as_deref(), Some("Pop only ? from stash@{0}? (y/n)"));

    let empty = App::new(Vec::new());
    assert_eq!(pane_title(&empty), "- — diff");
}

#[test]
fn diff_line_kinds() {
    assert_eq!(line_kind("+++ b/a.txt"), DiffLine::Meta);
    assert_eq!(line_kind("--- a/a.txt"), DiffLine::Meta);
    assert_eq!(line_kind("diff --git a b"), DiffLine::Meta);
    assert_eq!(line_kind("index 1..2"), DiffLine::Meta);
    assert_eq!(line_kind("+two"), DiffLine::Added);
    assert_eq!(line_kind("-one"), DiffLine::Removed);
    assert_eq!(line_kind("@@ -1 +1 @@"), DiffLine::Hunk);
    assert_eq!(line_kind(" same"), DiffLine::Context);
    assert_eq!(line_kind(""), DiffLine::Context);
}

#[test]
fn mouse_scrolls_and_opens() {
    let screen = area(0, 0, 100, 30);
    let mut app = App::new(parse_list("stash@{0}: On main: a\nstash@{1}: On main: b\n"));
    app.complete(Ok("l1\nl2\nl3\nl4\nl5\n".to_string()));
    handle_mouse(Mouse { kind: MouseKind::ScrollDown, column: 50, row: 3 }, &mut app, screen);
    assert_eq!(app.scroll, 3, "wheel over the right pane scrolls the diff");
    handle_mouse(Mouse { kind: MouseKind::ScrollDown, column: 5, row: 3 }, &mut app, screen);
    assert_eq!(app.list_i, 1, "wheel over the left pane moves the stash selection");
    assert_eq!(app.scroll, 0);
    app.complete(Ok("x\n".to_string()));
    handle_mouse(Mouse { kind: MouseKind::ScrollUp, column: 5, row: 29 }, &mut app, screen);
    assert_eq!(app.list_i, 1, "the footer is in neither pane");

    app.files = strings(&["a.txt", "src/b.rs"]);
    app.file_stats = vec![(1, 1), (2, 2)];
    app.mode = Mode::Tree;
    // rows: "a.txt", "src/", "  b.rs"; the pane's border takes row 0
    handle_mouse(Mouse { kind: MouseKind::LeftDown, column: 50, row: 2 }, &mut app, screen);
    assert_eq!(app.mode, Mode::Tree, "a directory header opens nothing");
    handle_mouse(Mouse { kind: MouseKind::LeftDown, column: 50, row: 3 }, &mut app, screen);
    assert_eq!(app.mode, Mode::FileDiff);
    assert_eq!(app.file_i, 1);
}

#[test]
fn wheel_over_list_returns_to_list() {
    let screen = area(0, 0, 100, 30);
    let mut app = App::new(parse_list("stash@{0}: On main: a\nstash@{1}: On main: b\n"));
    app.complete(Ok("x\n".to_string()));
    app.files = strings(&["a.txt"]);
    app.file_stats = vec![(1, 1)];
    app.mode = Mode::FileDiff;
    handle_mouse(Mouse { kind: MouseKind::ScrollDown, column: 1, row: 1 }, &mut app, screen);
    assert_eq!(app.mode, Mode::List);
    assert_eq!(app.list_i, 1);
    assert!(app.files.is_empty());
    handle_mouse(Mouse { kind: MouseKind::ScrollDown, column: 1, row: 1 }, &mut app, screen);
    assert_eq!(app.list_i, 1, "clamps at the bottom");
    handle_mouse(Mouse { kind: MouseKind::Other, column: 1, row: 1 }, &mut app, screen);
    assert_eq!(app.list_i, 1);
}
