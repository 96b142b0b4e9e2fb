use gitpeek::app::{App, Confirm, GitCall, Mode};
use gitpeek::event::{handle, Key, KeyPress};
use gitpeek::git::parse_list;

const LIST: &str = "stash@{0}: On main: second wip\nstash@{1}: On main: first wip\n";
const PATCH0: &str = "diff --git a/a.txt b/a.txt\n--- a/a.txt\n+++ b/a.txt\n@@ -1 +1 @@\n-one\n+two\n";
const PATCH1: &str = "diff --git a/a.txt b/a.txt\n@@ -1 +1 @@\n-one\n+one changed\n";

fn press(c: char) -> KeyPress {
    KeyPress { key: Key::Char(c), ctrl: false }
}

fn ctrl(c: char) -> KeyPress {
    KeyPress { key: Key::Char(c), ctrl: true }
}

fn key(k: Key) -> KeyPress {
    KeyPress { key: k, ctrl: false }
}

fn pending_diff(app: &App) -> Option<String> {
    match &app.pending {
        Some(GitCall::Diff { reference }) => Some(reference.clone()),
        _ => None,
    }
}

fn opened() -> App {
    let mut app = App::new(parse_list(LIST));
    assert_eq!(pending_diff(&app).as_deref(), Some("stash@{0}"));
    app.complete(Ok(PATCH0.to_string()));
    app
}

#[test]
fn opening_asks_for_the_first_patch() {
    let app = opened();
    assert!(app.pending.is_none());
    assert_eq!(app.list_i, 0);
    assert_eq!(app.mode, Mode::List);
    assert_eq!(app.diff.len(), 6);
    assert_eq!(app.diff[5], "+two");
    assert_eq!(app.current().unwrap().reference, "stash@{0}");
}

#[test]
fn no_stashes_asks_for_nothing() {
    let app = App::new(Vec::new());
    assert!(app.pending.is_none());
    assert!(app.current().is_none());
    assert!(app.diff.is_empty());
}

#[test]
fn select_clamps_and_follows() {
    let mut app = opened();
    app.select(-1);
    assert_eq!(app.list_i, 0, "clamps at the top");
    app.complete(Ok(PATCH0.to_string()));
    app.select(1);
    assert_eq!(app.list_i, 1);
    assert_eq!(pending_diff(&app).as_deref(), Some("stash@{1}"));
    app.complete(Ok(PATCH1.to_string()));
    assert!(app.diff.iter().any(|l| l.contains("+one changed")), "diff followed selection");
    app.select(5);
    assert_eq!(app.list_i, 1, "clamps at the bottom");
    app.select(isize::MIN);
    assert_eq!(app.list_i, 0);
}

#[test]
fn scroll_clamps() {
    let mut app = opened();
    app.scroll_by(-1);
    assert_eq!(app.scroll, 0, "clamps at the top");
    app.scroll_by(10_000);
    assert_eq!(app.scroll as usize, app.diff.len() - 1, "clamps at the last line");
    app.refresh_diff();
    assert_eq!(app.scroll, 0, "scroll resets on refresh");
}

#[test]
fn tree_and_file_diff() {
    let mut app = opened();
    app.select(1);
    app.complete(Ok(PATCH1.to_string()));
    app.enter_tree();
    match &app.pending {
        Some(GitCall::FileStats { reference }) => assert_eq!(reference, "stash@{1}"),
        other => panic!("{other:?}"),
    }
    app.complete(Ok("1\t1\ta.txt\n1\t1\tb.txt\n".to_string()));
    assert_eq!(app.mode, Mode::Tree);
    assert_eq!(app.files, vec!["a.txt", "b.txt"]);
    assert_eq!(app.file_stats, vec![(1, 1), (1, 1)]);
    assert!(app.diff.is_empty(), "tree view has no diff until a file is opened");

    app.scroll_by(100);
    assert_eq!(app.scroll, 4, "tree scroll bound is two rows per file");

    app.select(1);
    assert_eq!(app.file_i, 1);
    app.enter_file_diff();
    assert_eq!(app.mode, Mode::FileDiff);
    assert_eq!(app.scroll, 0, "scroll resets on refresh");
    match &app.pending {
        Some(GitCall::FileDiff { reference, path }) => {
            assert_eq!(reference, "stash@{1}");
            assert_eq!(path, "b.txt");
        }
        other => panic!("{other:?}"),
    }
    app.complete(Ok("-x\n+y\n".to_string()));
    assert!(app.diff.iter().any(|l| l.contains("+y")), "per-file diff");

    app.select(1);
    assert_eq!(app.file_i, 1, "no selection while a file is shown");

    app.back_to_tree();
    assert_eq!(app.mode, Mode::Tree);
    assert!(app.diff.is_empty());

    app.back_to_list();
    assert_eq!(app.mode, Mode::List);
    assert!(app.files.is_empty());
    assert_eq!(app.list_i, 1);
    assert_eq!(pending_diff(&app).as_deref(), Some("stash@{1}"));
}

#[test]
fn empty_and_failing_stats() {
    let mut app = opened();
    app.enter_tree();
    app.complete(Ok(String::new()));
    assert_eq!(app.mode, Mode::List);
    assert_eq!(app.status.as_deref(), Some("no files in this stash"));
    app.enter_tree();
    app.complete(Err("git stash show --numstat stash@{0}: boom".to_string()));
    assert_eq!(app.mode, Mode::List);
    assert_eq!(app.status.as_deref(), Some("git stash show --numstat stash@{0}: boom"));
}

#[test]
fn failed_diff_is_reported() {
    let mut app = App::new(parse_list(LIST));
    app.complete(Err("git stash show -p stash@{0}: bad".to_string()));
    assert!(app.diff.is_empty());
    assert_eq!(app.status.as_deref(), Some("git stash show -p stash@{0}: bad"));
    assert!(!app.should_quit);
    // nothing pending: completing again changes nothing
    app.complete(Ok("ignored".to_string()));
    assert!(app.diff.is_empty());
}

#[test]
fn pop_asks_first_then_pops() {
    let mut app = opened();
    handle(key(Key::Enter), &mut app);
    assert_eq!(app.confirm, Some(Confirm::PopStash));
    assert!(app.pending.is_none(), "nothing happens before the answer");
    handle(press('n'), &mut app);
    assert_eq!(app.confirm, None);
    assert!(app.pending.is_none());

    handle(key(Key::Enter), &mut app);
    handle(press('x'), &mut app);
    assert_eq!(app.confirm, Some(Confirm::PopStash), "other keys leave the prompt open");
    handle(press('y'), &mut app);
    assert_eq!(app.confirm, None);
    match &app.pending {
        Some(GitCall::Pop { reference }) => assert_eq!(reference, "stash@{0}"),
        other => panic!("{other:?}"),
    }
    app.complete(Ok("Dropped refs/stash@{0}\n\n".to_string()));
    assert!(app.should_quit);
    assert_eq!(app.popped.as_deref(), Some("Popped stash@{0}\nDropped refs/stash@{0}"));
}

#[test]
fn pop_file_from_the_tree() {
    let mut app = opened();
    handle(press('p'), &mut app);
    assert_eq!(app.confirm, None, "no file to pop in the list");
    handle(press('l'), &mut app);
    app.complete(Ok("1\t0\tsrc/a.rs\n2\t0\tb.txt\n".to_string()));
    handle(press('j'), &mut app);
    assert_eq!(app.file_i, 1);
    handle(press('p'), &mut app);
    assert_eq!(app.confirm, Some(Confirm::PopFile));
    handle(press('y'), &mut app);
    match &app.pending {
        Some(GitCall::PopFile { reference, path, all_files }) => {
            assert_eq!(reference, "stash@{0}");
            assert_eq!(path, "b.txt");
            assert_eq!(all_files, &vec!["src/a.rs".to_string(), "b.txt".to_string()]);
        }
        other => panic!("{other:?}"),
    }
    app.complete(Ok("done\n".to_string()));
    assert_eq!(app.popped.as_deref(), Some("Popped b.txt from stash@{0}\ndone"));
    assert!(app.should_quit);
}

#[test]
fn failed_pop_keeps_running() {
    let mut app = opened();
    app.do_pop_stash();
    app.complete(Err("CONFLICT".to_string()));
    assert!(!app.should_quit);
    assert_eq!(app.popped, None);
    assert_eq!(app.status.as_deref(), Some("CONFLICT"));
}

#[test]
fn keys_navigate_and_quit() {
    let mut app = opened();
    handle(key(Key::Down), &mut app);
    assert_eq!(app.list_i, 1);
    app.complete(Ok(PATCH1.to_string()));
    handle(press('k'), &mut app);
    assert_eq!(app.list_i, 0);
    app.complete(Ok(PATCH0.to_string()));
    handle(ctrl('d'), &mut app);
    assert_eq!(app.scroll, 5);
    handle(ctrl('u'), &mut app);
    assert_eq!(app.scroll, 0);
    handle(key(Key::PageDown), &mut app);
    assert_eq!(app.scroll, 5);
    handle(key(Key::Right), &mut app);
    assert!(matches!(app.pending, Some(GitCall::FileStats { .. })));
    app.complete(Ok("1\t1\ta.txt\n".to_string()));
    handle(key(Key::Right), &mut app);
    assert_eq!(app.mode, Mode::FileDiff);
    app.complete(Ok("+a\n".to_string()));
    handle(press('j'), &mut app);
    assert_eq!(app.scroll, 0, "one-line diff does not scroll");
    handle(key(Key::Esc), &mut app);
    assert_eq!(app.mode, Mode::Tree);
    handle(press('h'), &mut app);
    assert_eq!(app.mode, Mode::List);
    app.complete(Ok(PATCH0.to_string()));
    handle(ctrl('x'), &mut app);
    assert!(!app.should_quit);
    handle(key(Key::Esc), &mut app);
    assert!(app.should_quit, "Esc in the list quits");

    let mut app = opened();
    handle(press('q'), &mut app);
    assert!(app.should_quit);

    let mut app = opened();
    handle(key(Key::Enter), &mut app);
    handle(ctrl('c'), &mut app);
    assert!(app.should_quit, "Ctrl-c quits even with the prompt open");
    assert!(app.in_bounds());
}
