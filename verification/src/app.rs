//! The browser's state and its transitions.
//!
//! Transitions that need `git` do not run it: they leave the call they need
//! in `App::pending`, and whoever drives the app runs that call and hands the
//! outcome to `App::complete`.
use vstd::prelude::*;
use crate::git::{
    parse_file_stats, result_views, spec_file_stats, stash_views, stat_views, Stash, StashView,
};
use crate::text::{
    concat, lemma_views_push, lines, lines_chars, chars_of, string_of, trim_end, trim_end_str,
    views,
};

verus! {

#[derive(Debug, PartialEq, Eq, Clone, Copy, Structural)]
pub enum Mode {
    List,
    Tree,
    FileDiff,
}

#[derive(Debug, PartialEq, Eq, Clone, Copy, Structural)]
pub enum Confirm {
    PopStash,
    PopFile,
}

/// A `git` run that a transition asks for.
#[derive(Debug)]
pub enum GitCall {
    /// The patch of a stash (`git::diff`).
    Diff { reference: String },
    /// One file's change in a stash (`git::file_diff`).
    FileDiff { reference: String, path: String },
    /// A stash's files and line counts (`git::file_stats`).
    FileStats { reference: String },
    /// Pop a stash (`git::pop`).
    Pop { reference: String },
    /// Pop one file of a stash, stashing the others again (`git::pop_file`).
    PopFile { reference: String, path: String, all_files: Vec<String> },
}

pub enum GitCallView {
    Diff { reference: Seq<char> },
    FileDiff { reference: Seq<char>, path: Seq<char> },
    FileStats { reference: Seq<char> },
    Pop { reference: Seq<char> },
    PopFile { reference: Seq<char>, path: Seq<char>, all_files: Seq<Seq<char>> },
}

impl View for GitCall {
    type V = GitCallView;

    open spec fn view(&self) -> GitCallView {
        match self {
            GitCall::Diff { reference } => GitCallView::Diff { reference: reference@ },
            GitCall::FileDiff { reference, path } => GitCallView::FileDiff {
                reference: reference@,
                path: path@,
            },
            GitCall::FileStats { reference } => GitCallView::FileStats { reference: reference@ },
            GitCall::Pop { reference } => GitCallView::Pop { reference: reference@ },
            GitCall::PopFile { reference, path, all_files } => GitCallView::PopFile {
                reference: reference@,
                path: path@,
                all_files: views(all_files@),
            },
        }
    }
}

pub struct App {
    pub stashes: Vec<Stash>,
    pub list_i: usize,
    pub mode: Mode,
    /// Confirm prompt is separate from `mode` so cancelling needs no saved mode.
    pub confirm: Option<Confirm>,
    pub files: Vec<String>,
    /// Parallel to `files`: (lines added, lines deleted), from `git diff --numstat`.
    pub file_stats: Vec<(u32, u32)>,
    pub file_i: usize,
    pub diff: Vec<String>,
    pub scroll: u16,
    pub status: Option<String>,
    pub should_quit: bool,
    /// Set after a successful pop; printed after the terminal is restored.
    pub popped: Option<String>,
    /// The `git` run that the last transition asked for and that has not been
    /// completed yet.
    pub pending: Option<GitCall>,
}

/// The state of the browser as mathematical values.
#[verifier::ext_equal]
pub struct AppView {
    pub stashes: Seq<StashView>,
    pub list_i: usize,
    pub mode: Mode,
    pub confirm: Option<Confirm>,
    pub files: Seq<Seq<char>>,
    pub file_stats: Seq<(u32, u32)>,
    pub file_i: usize,
    pub diff: Seq<Seq<char>>,
    pub scroll: u16,
    pub status: Option<Seq<char>>,
    pub should_quit: bool,
    pub popped: Option<Seq<char>>,
    pub pending: Option<GitCallView>,
}

pub open spec fn opt_view(o: Option<String>) -> Option<Seq<char>> {
    match o {
        Some(s) => Some(s@),
        None => None,
    }
}

pub open spec fn call_view(o: Option<GitCall>) -> Option<GitCallView> {
    match o {
        Some(c) => Some(c@),
        None => None,
    }
}

impl View for App {
    type V = AppView;

    open spec fn view(&self) -> AppView {
        AppView {
            stashes: stash_views(self.stashes@),
            list_i: self.list_i,
            mode: self.mode,
            confirm: self.confirm,
            files: views(self.files@),
            file_stats: self.file_stats@,
            file_i: self.file_i,
            diff: views(self.diff@),
            scroll: self.scroll,
            status: opt_view(self.status),
            should_quit: self.should_quit,
            popped: opt_view(self.popped),
            pending: call_view(self.pending),
        }
    }
}

/// `x` limited to `lo..=hi`; `Ord::clamp`.
pub open spec fn clamp(x: int, lo: int, hi: int) -> int {
    if x < lo {
        lo
    } else if x > hi {
        hi
    } else {
        x
    }
}

/// Moving index `i` of a list of `len` items by `delta` neither overflows nor
/// has a negative upper bound.
pub open spec fn step_ok(i: usize, len: nat, delta: int) -> bool {
    &&& len <= isize::MAX
    &&& isize::MIN <= (i as isize) + delta <= isize::MAX
}

/// The index `i` moved by `delta`, kept within a list of `len` items.
pub open spec fn stepped(i: usize, len: nat, delta: int) -> usize {
    clamp((i as isize) + delta, 0, len - 1) as usize
}

pub open spec fn stat_paths(st: Seq<(Seq<char>, u32, u32)>) -> Seq<Seq<char>> {
    st.map_values(|e: (Seq<char>, u32, u32)| e.0)
}

pub open spec fn stat_counts(st: Seq<(Seq<char>, u32, u32)>) -> Seq<(u32, u32)> {
    st.map_values(|e: (Seq<char>, u32, u32)| (e.1, e.2))
}

impl AppView {
    /// The browser as it opens on `stashes`.
    pub open spec fn initial(stashes: Seq<StashView>) -> AppView {
        AppView {
            stashes,
            list_i: 0,
            mode: Mode::List,
            confirm: None,
            files: seq![],
            file_stats: seq![],
            file_i: 0,
            diff: seq![],
            scroll: 0,
            status: None,
            should_quit: false,
            popped: None,
            pending: None,
        }.refresh_diff()
    }

    /// The selected stash.
    pub open spec fn current(self) -> Option<StashView> {
        if self.list_i < self.stashes.len() {
            Some(self.stashes[self.list_i as int])
        } else {
            None
        }
    }

    /// Scroll back to the top and ask for the diff that the mode shows: the
    /// selected stash's patch in the list, the selected file's change in the
    /// file view, nothing in the tree.
    pub open spec fn refresh_diff(self) -> AppView {
        let cleared = AppView { scroll: 0, diff: seq![], ..self };
        match self.current() {
            None => AppView { pending: None, ..cleared },
            Some(s) => match self.mode {
                Mode::List => AppView {
                    pending: Some(GitCallView::Diff { reference: s.reference }),
                    ..cleared
                },
                Mode::Tree => AppView { pending: None, ..cleared },
                Mode::FileDiff => if self.file_i < self.files.len() {
                    AppView {
                        pending: Some(
                            GitCallView::FileDiff {
                                reference: s.reference,
                                path: self.files[self.file_i as int],
                            },
                        ),
                        ..cleared
                    }
                } else {
                    AppView { pending: None, ..cleared }
                },
            },
        }
    }

    pub open spec fn select_ok(self, delta: isize) -> bool {
        match self.mode {
            Mode::List => self.stashes.len() == 0 || step_ok(self.list_i, self.stashes.len(), delta as int),
            Mode::Tree => self.files.len() == 0 || step_ok(self.file_i, self.files.len(), delta as int),
            Mode::FileDiff => true,
        }
    }

    /// Move the selection of the current mode's list by `delta`, clamped.
    pub open spec fn select(self, delta: isize) -> AppView {
        match self.mode {
            Mode::List => if self.stashes.len() == 0 {
                self
            } else {
                AppView {
                    list_i: stepped(self.list_i, self.stashes.len(), delta as int),
                    ..self
                }.refresh_diff()
            },
            Mode::Tree => if self.files.len() == 0 {
                self
            } else {
                AppView { file_i: stepped(self.file_i, self.files.len(), delta as int), ..self }
            },
            Mode::FileDiff => self,
        }
    }

    pub open spec fn select_stash_ok(self, delta: isize) -> bool {
        self.stashes.len() == 0 || step_ok(self.list_i, self.stashes.len(), delta as int)
    }

    /// Move the stash selection by `delta`, clamped, and go back to the list.
    pub open spec fn select_stash(self, delta: isize) -> AppView {
        if self.stashes.len() == 0 {
            self
        } else {
            AppView {
                list_i: stepped(self.list_i, self.stashes.len(), delta as int),
                ..self
            }.back_to_list()
        }
    }

    /// The largest scroll offset: about two rows per file in the tree (a file
    /// and its directory header), the last line of the diff otherwise.
    pub open spec fn scroll_max(self) -> i32 {
        if self.mode == Mode::Tree {
            (self.files.len() * 2) as i32
        } else {
            (if self.diff.len() == 0 {
                0
            } else {
                self.diff.len() - 1
            }) as i32
        }
    }

    pub open spec fn scroll_ok(self, delta: i32) -> bool {
        &&& (self.mode == Mode::Tree ==> self.files.len() * 2 <= usize::MAX)
        &&& i32::MIN <= self.scroll + delta <= i32::MAX
    }

    pub open spec fn scroll_by(self, delta: i32) -> AppView {
        let max = self.scroll_max();
        let top = if max < 0 {
            0
        } else {
            max as int
        };
        AppView { scroll: clamp(self.scroll + delta, 0, top) as u16, ..self }
    }

    /// Ask for the selected stash's files.
    pub open spec fn enter_tree(self) -> AppView {
        match self.current() {
            None => self,
            Some(s) => AppView { pending: Some(GitCallView::FileStats { reference: s.reference }), ..self },
        }
    }

    pub open spec fn enter_file_diff(self) -> AppView {
        if self.files.len() == 0 {
            self
        } else {
            AppView { mode: Mode::FileDiff, ..self }.refresh_diff()
        }
    }

    pub open spec fn back_to_tree(self) -> AppView {
        AppView { mode: Mode::Tree, diff: seq![], scroll: 0, ..self }
    }

    pub open spec fn back_to_list(self) -> AppView {
        AppView { mode: Mode::List, files: seq![], file_stats: seq![], file_i: 0, ..self }.refresh_diff()
    }

    /// Close the prompt and ask to pop the selected stash.
    pub open spec fn do_pop_stash(self) -> AppView {
        let closed = AppView { confirm: None, ..self };
        match self.current() {
            None => closed,
            Some(s) => AppView { pending: Some(GitCallView::Pop { reference: s.reference }), ..closed },
        }
    }

    /// Close the prompt and ask to pop only the selected file of the selected stash.
    pub open spec fn do_pop_file(self) -> AppView {
        let closed = AppView { confirm: None, ..self };
        match self.current() {
            None => closed,
            Some(s) => if self.file_i < self.files.len() {
                AppView {
                    pending: Some(
                        GitCallView::PopFile {
                            reference: s.reference,
                            path: self.files[self.file_i as int],
                            all_files: self.files,
                        },
                    ),
                    ..closed
                }
            } else {
                closed
            },
        }
    }

    /// Take in the outcome of the pending `git` run: the text it printed, or an
    /// error message.
    pub open spec fn complete(self, outcome: Result<Seq<char>, Seq<char>>) -> AppView {
        let done = AppView { pending: None, ..self };
        match self.pending {
            None => self,
            Some(call) => match call {
                GitCallView::Diff { .. } | GitCallView::FileDiff { .. } => match outcome {
                    Ok(text) => AppView { diff: lines(text), ..done },
                    Err(e) => AppView { diff: seq![], status: Some(e), ..done },
                },
                GitCallView::FileStats { .. } => match outcome {
                    Ok(text) => {
                        let st = spec_file_stats(text);
                        if st.len() == 0 {
                            AppView { status: Some("no files in this stash"@), ..done }
                        } else {
                            AppView {
                                files: stat_paths(st),
                                file_stats: stat_counts(st),
                                file_i: 0,
                                mode: Mode::Tree,
                                status: None,
                                diff: seq![],
                                scroll: 0,
                                ..done
                            }
                        }
                    },
                    Err(e) => AppView { status: Some(e), ..done },
                },
                GitCallView::Pop { reference } => match outcome {
                    Ok(text) => AppView {
                        popped: Some("Popped "@ + reference + "\n"@ + trim_end(text)),
                        should_quit: true,
                        ..done
                    },
                    Err(e) => AppView { status: Some(e), ..done },
                },
                GitCallView::PopFile { reference, path, .. } => match outcome {
                    Ok(text) => AppView {
                        popped: Some("Popped "@ + path + " from "@ + reference + "\n"@ + trim_end(text)),
                        should_quit: true,
                        ..done
                    },
                    Err(e) => AppView { status: Some(e), ..done },
                },
            },
        }
    }
}

fn clamp_isize(x: isize, lo: isize, hi: isize) -> (r: isize)
    requires
        lo <= hi,
    ensures
        r == clamp(x as int, lo as int, hi as int),
{
    if x < lo {
        lo
    } else if x > hi {
        hi
    } else {
        x
    }
}

fn clamp_i32(x: i32, lo: i32, hi: i32) -> (r: i32)
    requires
        lo <= hi,
    ensures
        r == clamp(x as int, lo as int, hi as int),
{
    if x < lo {
        lo
    } else if x > hi {
        hi
    } else {
        x
    }
}

/// Index `i` moved by `delta` within a list of `len` items.
fn step(i: usize, len: usize, delta: isize) -> (r: usize)
    requires
        len > 0,
        step_ok(i, len as nat, delta as int),
    ensures
        r == stepped(i, len as nat, delta as int),
        r < len,
{
    clamp_isize(i as isize + delta, 0, len as isize - 1) as usize
}

/// A copy of a list of strings.
pub fn clone_strings(v: &Vec<String>) -> (r: Vec<String>)
    ensures
        views(r@) == views(v@),
{
    let mut out: Vec<String> = Vec::new();
    let mut i: usize = 0;
    while i < v.len()
        invariant
            i <= v.len(),
            views(out@) == views(v@.take(i as int)),
        decreases v.len() - i,
    {
        let s = v[i].clone();
        proof {
            lemma_views_push(out@, s);
            assert(v@.take(i + 1) =~= v@.take(i as int).push(v@[i as int]));
            lemma_views_push(v@.take(i as int), v@[i as int]);
        }
        out.push(s);
        i += 1;
    }
    assert(v@.take(v@.len() as int) =~= v@);
    out
}

/// The lines of `text`, each as a `String`.
pub fn text_lines(text: &str) -> (r: Vec<String>)
    ensures
        views(r@) == lines(text@),
{
    let ls = lines_chars(&chars_of(text));
    let ghost lv = ls@.map_values(|l: Vec<char>| l@);
    let mut out: Vec<String> = Vec::new();
    let mut i: usize = 0;
    while i < ls.len()
        invariant
            i <= ls.len(),
            lv == ls@.map_values(|l: Vec<char>| l@),
            views(out@) == lv.take(i as int),
        decreases ls.len() - i,
    {
        let s = string_of(&ls[i], 0, ls[i].len());
        proof {
            assert(s@ =~= ls@[i as int]@);
            lemma_views_push(out@, s);
            assert(lv.take(i + 1) =~= lv.take(i as int).push(lv[i as int]));
        }
        out.push(s);
        i += 1;
    }
    assert(lv.take(ls@.len() as int) =~= lv);
    out
}

impl App {
    pub fn new(stashes: Vec<Stash>) -> (app: Self)
        ensures
            app@ == AppView::initial(stash_views(stashes@)),
    {
        let mut app = App {
            stashes,
            list_i: 0,
            mode: Mode::List,
            confirm: None,
            files: Vec::new(),
            file_stats: Vec::new(),
            file_i: 0,
            diff: Vec::new(),
            scroll: 0,
            status: None,
            should_quit: false,
            popped: None,
            pending: None,
        };
        assert(views(app.files@) =~= seq![]);
        assert(views(app.diff@) =~= seq![]);
        app.refresh_diff();
        app
    }

    pub fn current(&self) -> (r: Option<&Stash>)
        ensures
            match r {
                Some(s) => self@.current() == Some(s@),
                None => self@.current() is None,
            },
    {
        if self.list_i < self.stashes.len() {
            Some(&self.stashes[self.list_i])
        } else {
            None
        }
    }

    pub fn refresh_diff(&mut self)
        ensures
            final(self)@ == old(self)@.refresh_diff(),
    {
        self.scroll = 0;
        self.diff = Vec::new();
        assert(views(self.diff@) =~= seq![]);
        if self.list_i >= self.stashes.len() {
            self.pending = None;
            return;
        }
        let reference = self.stashes[self.list_i].reference.clone();
        match self.mode {
            Mode::List => {
                self.pending = Some(GitCall::Diff { reference });
            },
            Mode::Tree => {
                self.pending = None;
            },
            Mode::FileDiff => {
                if self.file_i < self.files.len() {
                    let path = self.files[self.file_i].clone();
                    self.pending = Some(GitCall::FileDiff { reference, path });
                } else {
                    self.pending = None;
                }
            },
        }
    }

    /// Moves the selection within the current mode's list (stashes, or files in the tree).
    pub fn select(&mut self, delta: isize)
        requires
            old(self)@.select_ok(delta),
        ensures
            final(self)@ == old(self)@.select(delta),
    {
        match self.mode {
            Mode::List => {
                if self.stashes.len() == 0 {
                    return;
                }
                self.list_i = step(self.list_i, self.stashes.len(), delta);
                self.refresh_diff();
            },
            Mode::Tree => {
                if self.files.len() == 0 {
                    return;
                }
                self.file_i = step(self.file_i, self.files.len(), delta);
            },
            Mode::FileDiff => {},
        }
    }

    /// Moves the stash selection directly regardless of mode - used by mouse-wheel
    /// scrolling over the stash list, which stays visible no matter how deep you are.
    pub fn select_stash(&mut self, delta: isize)
        requires
            old(self)@.select_stash_ok(delta),
        ensures
            final(self)@ == old(self)@.select_stash(delta),
    {
        if self.stashes.len() == 0 {
            return;
        }
        self.list_i = step(self.list_i, self.stashes.len(), delta);
        self.back_to_list();
    }

    pub fn scroll_by(&mut self, delta: i32)
        requires
            old(self)@.scroll_ok(delta),
        ensures
            final(self)@ == old(self)@.scroll_by(delta),
    {
        let max: i32 = match self.mode {
            Mode::Tree => (self.files.len() * 2) as i32,
            _ => (if self.diff.len() == 0 {
                0
            } else {
                self.diff.len() - 1
            }) as i32,
        };
        let top: i32 = if max < 0 {
            0
        } else {
            max
        };
        self.scroll = clamp_i32(self.scroll as i32 + delta, 0, top) as u16;
    }

    pub fn enter_tree(&mut self)
        ensures
            final(self)@ == old(self)@.enter_tree(),
    {
        if self.list_i >= self.stashes.len() {
            return;
        }
        let reference = self.stashes[self.list_i].reference.clone();
        self.pending = Some(GitCall::FileStats { reference });
    }

    pub fn enter_file_diff(&mut self)
        ensures
            final(self)@ == old(self)@.enter_file_diff(),
    {
        if self.files.len() == 0 {
            return;
        }
        self.mode = Mode::FileDiff;
        self.refresh_diff();
    }

    pub fn back_to_tree(&mut self)
        ensures
            final(self)@ == old(self)@.back_to_tree(),
    {
        self.mode = Mode::Tree;
        self.diff = Vec::new();
        assert(views(self.diff@) =~= seq![]);
        self.scroll = 0;
    }

    pub fn back_to_list(&mut self)
        ensures
            final(self)@ == old(self)@.back_to_list(),
    {
        self.mode = Mode::List;
        self.files = Vec::new();
        self.file_stats = Vec::new();
        assert(views(self.files@) =~= seq![]);
        self.file_i = 0;
        self.refresh_diff();
    }

    pub fn do_pop_stash(&mut self)
        ensures
            final(self)@ == old(self)@.do_pop_stash(),
    {
        self.confirm = None;
        if self.list_i >= self.stashes.len() {
            return;
        }
        let reference = self.stashes[self.list_i].reference.clone();
        self.pending = Some(GitCall::Pop { reference });
    }

    /// Pops just the selected file out of the current stash, leaving the rest stashed.
    pub fn do_pop_file(&mut self)
        ensures
            final(self)@ == old(self)@.do_pop_file(),
    {
        self.confirm = None;
        if self.list_i >= self.stashes.len() {
            return;
        }
        if self.file_i >= self.files.len() {
            return;
        }
        let reference = self.stashes[self.list_i].reference.clone();
        let path = self.files[self.file_i].clone();
        let all_files = clone_strings(&self.files);
        self.pending = Some(GitCall::PopFile { reference, path, all_files });
    }

    /// Takes in the outcome of the pending `git` run (what it printed, or an
    /// error message) and clears `pending`. Without a pending run, nothing changes.
    pub fn complete(&mut self, outcome: Result<String, String>)
        ensures
            final(self)@ == old(self)@.complete(result_views(outcome)),
    {
        let call = match self.pending.take() {
            Some(c) => c,
            None => return,
        };
        match call {
            GitCall::Diff { .. } | GitCall::FileDiff { .. } => match outcome {
                Ok(text) => {
                    self.diff = text_lines(text.as_str());
                },
                Err(e) => {
                    self.diff = Vec::new();
                    assert(views(self.diff@) =~= seq![]);
                    self.status = Some(e);
                },
            },
            GitCall::FileStats { .. } => match outcome {
                Ok(text) => {
                    let stats = parse_file_stats(text.as_str());
                    if stats.len() == 0 {
                        self.status = Some(String::from_str("no files in this stash"));
                    } else {
                        let mut files: Vec<String> = Vec::new();
                        let mut counts: Vec<(u32, u32)> = Vec::new();
                        let ghost sv = stat_views(stats@);
                        let mut i: usize = 0;
                        while i < stats.len()
                            invariant
                                i <= stats.len(),
                                sv == stat_views(stats@),
                                views(files@) == stat_paths(sv.take(i as int)),
                                counts@ == stat_counts(sv.take(i as int)),
                            decreases stats.len() - i,
                        {
                            let p = stats[i].0.clone();
                            proof {
                                lemma_views_push(files@, p);
                                assert(sv.take(i + 1) =~= sv.take(i as int).push(sv[i as int]));
                                assert(stat_paths(sv.take(i + 1)) =~= stat_paths(sv.take(i as int)).push(sv[i as int].0));
                                assert(stat_counts(sv.take(i + 1)) =~= stat_counts(sv.take(i as int)).push((sv[i as int].1, sv[i as int].2)));
                            }
                            files.push(p);
                            counts.push((stats[i].1, stats[i].2));
                            i += 1;
                        }
                        assert(sv.take(stats@.len() as int) =~= sv);
                        self.files = files;
                        self.file_stats = counts;
                        self.file_i = 0;
                        self.mode = Mode::Tree;
                        self.status = None;
                        self.diff = Vec::new();
                        assert(views(self.diff@) =~= seq![]);
                        self.scroll = 0;
                    }
                },
                Err(e) => {
                    self.status = Some(e);
                },
            },
            GitCall::Pop { reference } => match outcome {
                Ok(text) => {
                    let mut msg = concat("Popped ", reference.as_str());
                    msg.append("\n");
                    let t = trim_end_str(text.as_str());
                    msg.append(t.as_str());
                    self.popped = Some(msg);
                    self.should_quit = true;
                },
                Err(e) => {
                    self.status = Some(e);
                },
            },
            GitCall::PopFile { reference, path, .. } => match outcome {
                Ok(text) => {
                    let mut msg = concat("Popped ", path.as_str());
                    msg.append(" from ");
                    msg.append(reference.as_str());
                    msg.append("\n");
                    let t = trim_end_str(text.as_str());
                    msg.append(t.as_str());
                    self.popped = Some(msg);
                    self.should_quit = true;
                },
                Err(e) => {
                    self.status = Some(e);
                },
            },
        }
    }
}

} // verus!
