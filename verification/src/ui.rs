//! What the screen shows, as plain values: pane geometry, the grouped file
//! tree, labels and prompts. Drawing them is left to the caller.
use vstd::prelude::*;
use ratatui::layout::{Constraint as C, Direction, Layout, Rect};
use crate::app::{App, AppView, Confirm, Mode};
use crate::git::{Stash, StashView};
use crate::text::{
    chars_of, concat, decimal, matches_at, push_char, push_decimal, split_chars, split_char, views,
};

verus! {

/// A rectangle of terminal cells.
#[derive(Debug, Clone, Copy, PartialEq, Eq, Structural)]
pub struct Area {
    pub x: u16,
    pub y: u16,
    pub width: u16,
    pub height: u16,
}

/// The direction in which a layout splits an area.
#[derive(Debug, Clone, Copy, PartialEq, Eq, Structural)]
pub enum Axis {
    Vertical,
    Horizontal,
}

/// How large one part of a layout should be.
#[derive(Debug, Clone, Copy, PartialEq, Eq, Structural)]
pub enum Size {
    Min(u16),
    Length(u16),
    Percentage(u16),
}

/// The two parts into which ratatui's `Layout` splits `area`.
pub uninterp spec fn layout_split(axis: Axis, first: Size, second: Size, area: Area) -> (Area, Area);

/// Splits `area` in two with ratatui's `Layout::areas`. The contract claims only
/// that the result is a function of the arguments (`layout_split`): ratatui's
/// constraint solver decides the sizes, and nothing about them is stated here.
#[verifier::external_body]
fn split_two(axis: Axis, first: Size, second: Size, area: Area) -> (r: (Area, Area))
    ensures
        r == layout_split(axis, first, second, area),
{
    let c = |s: Size| match s { Size::Min(v) => C::Min(v), Size::Length(v) => C::Length(v), Size::Percentage(v) => C::Percentage(v) };
    let dir = match axis { Axis::Vertical => Direction::Vertical, Axis::Horizontal => Direction::Horizontal };
    let [a, b] = Layout::new(dir, [c(first), c(second)]).areas(Rect { x: area.x, y: area.y, width: area.width, height: area.height });
    let r = |a: Rect| Area { x: a.x, y: a.y, width: a.width, height: a.height };
    (r(a), r(b))
}

/// The main area and the one-line footer.
pub open spec fn spec_main_and_footer(area: Area) -> (Area, Area) {
    layout_split(Axis::Vertical, Size::Min(0), Size::Length(1), area)
}

/// Left (stash list) and right (diff or files) panes: 40% and 60% of the main area.
pub open spec fn spec_panes(area: Area) -> (Area, Area) {
    layout_split(Axis::Horizontal, Size::Percentage(40), Size::Percentage(60), spec_main_and_footer(area).0)
}

/// The main area and the footer line of the screen.
pub fn main_and_footer(area: Area) -> (r: (Area, Area))
    ensures
        r == spec_main_and_footer(area),
{
    split_two(Axis::Vertical, Size::Min(0), Size::Length(1), area)
}

/// Left/right pane rects, shared with mouse hit-testing so scroll/click events
/// land on whichever pane the cursor is actually over.
pub fn panes(area: Area) -> (r: (Area, Area))
    ensures
        r == spec_panes(area),
{
    let (main, _footer) = main_and_footer(area);
    split_two(Axis::Horizontal, Size::Percentage(40), Size::Percentage(60), main)
}

pub open spec fn sat_add(a: u16, b: u16) -> int {
    if a + b > u16::MAX {
        u16::MAX as int
    } else {
        a + b
    }
}

/// The cell `(x, y)` lies in `a` (whose far edges saturate at the screen limit).
pub open spec fn spec_contains(a: Area, x: u16, y: u16) -> bool {
    &&& a.x <= x < sat_add(a.x, a.width)
    &&& a.y <= y < sat_add(a.y, a.height)
}

pub fn contains(a: Area, x: u16, y: u16) -> (r: bool)
    ensures
        r == spec_contains(a, x, y),
{
    let right: u16 = if a.width > u16::MAX - a.x {
        u16::MAX
    } else {
        a.x + a.width
    };
    let bottom: u16 = if a.height > u16::MAX - a.y {
        u16::MAX
    } else {
        a.y + a.height
    };
    x >= a.x && x < right && y >= a.y && y < bottom
}

pub open spec fn min_u16(a: u16, b: u16) -> u16 {
    if a < b {
        a
    } else {
        b
    }
}

/// Centring a `width` by `height` box in `area` stays within `u16`.
pub open spec fn centered_ok(area: Area, width: u16, height: u16) -> bool {
    &&& area.x + (area.width - min_u16(width, area.width)) / 2 <= u16::MAX
    &&& area.y + (area.height - min_u16(height, area.height)) / 2 <= u16::MAX
}

pub open spec fn spec_centered(area: Area, width: u16, height: u16) -> Area {
    let w = min_u16(width, area.width);
    let h = min_u16(height, area.height);
    Area {
        x: (area.x + (area.width - w) / 2) as u16,
        y: (area.y + (area.height - h) / 2) as u16,
        width: w,
        height: h,
    }
}

/// A box of at most `width` by `height` in the middle of `area`.
pub fn centered(area: Area, width: u16, height: u16) -> (r: Area)
    requires
        centered_ok(area, width, height),
    ensures
        r == spec_centered(area, width, height),
{
    let w = if width < area.width {
        width
    } else {
        area.width
    };
    let h = if height < area.height {
        height
    } else {
        area.height
    };
    Area { x: area.x + (area.width - w) / 2, y: area.y + (area.height - h) / 2, width: w, height: h }
}

// ---------------------------------------------------------------------------
// The file tree
// ---------------------------------------------------------------------------

/// A row in the file tree: a non-selectable directory header, or a file
/// (carrying its index into `App::files`/`App::file_stats`).
#[derive(Debug)]
pub enum TreeRow {
    Dir(String),
    File(usize, String),
}

pub enum TreeRowView {
    Dir(Seq<char>),
    File(usize, Seq<char>),
}

impl View for TreeRow {
    type V = TreeRowView;

    open spec fn view(&self) -> TreeRowView {
        match self {
            TreeRow::Dir(s) => TreeRowView::Dir(s@),
            TreeRow::File(i, s) => TreeRowView::File(*i, s@),
        }
    }
}

pub open spec fn row_views(v: Seq<TreeRow>) -> Seq<TreeRowView> {
    v.map_values(|r: TreeRow| r@)
}

/// Two spaces per level.
pub open spec fn indent(depth: nat) -> Seq<char> {
    Seq::new(2 * depth, |k: int| ' ')
}

/// How many leading directories `a` and `b` share.
pub open spec fn common_len(a: Seq<Seq<char>>, b: Seq<Seq<char>>) -> nat
    decreases a.len(),
{
    if a.len() == 0 || b.len() == 0 || a[0] != b[0] {
        0
    } else {
        1 + common_len(a.drop_first(), b.drop_first())
    }
}

/// Headers for the directories `dirs[from..]`, each indented by its depth.
pub open spec fn dir_rows(dirs: Seq<Seq<char>>, from: nat) -> Seq<TreeRowView> {
    Seq::new(
        (dirs.len() - from) as nat,
        |k: int| TreeRowView::Dir(indent((from + k) as nat) + dirs[from + k] + "/"@),
    )
}

/// `(added, deleted)` of file `i`, or `(0, 0)` where `stats` has no entry.
pub open spec fn stat_of(stats: Seq<(u32, u32)>, i: int) -> (u32, u32) {
    if 0 <= i < stats.len() {
        stats[i]
    } else {
        (0, 0)
    }
}

/// The row of file `i` at path `path`: its name indented below its
/// directories, with its line counts.
pub open spec fn file_row(i: int, path: Seq<char>, stat: (u32, u32)) -> TreeRowView {
    let parts = split_char(path, '/');
    let dirs = parts.drop_last();
    TreeRowView::File(
        i as usize,
        indent(dirs.len()) + parts.last() + "  +"@ + decimal(stat.0 as nat) + " -"@ + decimal(
            stat.1 as nat,
        ),
    )
}

/// Rows of the tree for `files`, and the directories of the last file.
pub open spec fn tree_state(files: Seq<Seq<char>>, stats: Seq<(u32, u32)>) -> (Seq<TreeRowView>, Seq<Seq<char>>)
    decreases files.len(),
{
    if files.len() == 0 {
        (seq![], seq![])
    } else {
        let (rows, prev) = tree_state(files.drop_last(), stats);
        let i = files.len() - 1;
        let dirs = split_char(files.last(), '/').drop_last();
        (
            (rows + dir_rows(dirs, common_len(dirs, prev))).push(
                file_row(i, files.last(), stat_of(stats, i)),
            ),
            dirs,
        )
    }
}

/// The grouped file tree: each file after the headers of those of its
/// directories that the file before it does not share.
pub open spec fn tree_rows(files: Seq<Seq<char>>, stats: Seq<(u32, u32)>) -> Seq<TreeRowView> {
    tree_state(files, stats).0
}

pub(crate) proof fn lemma_common_len(a: Seq<Seq<char>>, b: Seq<Seq<char>>, k: nat)
    requires
        k <= a.len(),
        k <= b.len(),
        forall|j: int| 0 <= j < k ==> a[j] == b[j],
        k == a.len() || k == b.len() || a[k as int] != b[k as int],
    ensures
        common_len(a, b) == k,
    decreases k,
{
    if k > 0 {
        assert(a[0] == b[0]);
        assert forall|j: int| 0 <= j < k - 1 implies a.drop_first()[j] == b.drop_first()[j] by {
            assert(a[j + 1] == b[j + 1]);
        }
        lemma_common_len(a.drop_first(), b.drop_first(), (k - 1) as nat);
    }
}

/// Whether two character vectors are equal.
fn chars_eq(a: &Vec<char>, b: &Vec<char>) -> (r: bool)
    ensures
        r == (a@ == b@),
{
    if a.len() != b.len() {
        return false;
    }
    let mut i: usize = 0;
    while i < a.len()
        invariant
            a.len() == b.len(),
            i <= a.len(),
            forall|k: int| 0 <= k < i ==> a@[k] == b@[k],
        decreases a.len() - i,
    {
        if a[i] != b[i] {
            assert(a@[i as int] != b@[i as int]);
            return false;
        }
        i += 1;
    }
    assert(a@ =~= b@);
    true
}

/// Appends all of `cs`.
fn push_chars(s: &mut String, cs: &Vec<char>)
    ensures
        final(s)@ == old(s)@ + cs@,
{
    let mut i: usize = 0;
    while i < cs.len()
        invariant
            i <= cs.len(),
            s@ == old(s)@ + cs@.take(i as int),
        decreases cs.len() - i,
    {
        push_char(s, cs[i]);
        assert(old(s)@ + cs@.take(i + 1) =~= (old(s)@ + cs@.take(i as int)).push(cs@[i as int]));
        i += 1;
    }
    assert(cs@.take(cs@.len() as int) =~= cs@);
}

/// Appends `2 * depth` spaces.
fn push_indent(s: &mut String, depth: usize)
    ensures
        final(s)@ == old(s)@ + indent(depth as nat),
{
    let mut i: usize = 0;
    while i < depth
        invariant
            i <= depth,
            s@ == old(s)@ + indent(i as nat),
        decreases depth - i,
    {
        push_char(s, ' ');
        push_char(s, ' ');
        assert(old(s)@ + indent((i + 1) as nat) =~= (old(s)@ + indent(i as nat)).push(' ').push(' '));
        i += 1;
    }
}

/// Groups files by shared directory prefixes, printing each directory header only
/// once - just enough structure to read as a tree. No expand/collapse, since stash
/// file lists are small enough that a flat grouped view already fits.
pub fn build_tree(files: &Vec<String>, stats: &Vec<(u32, u32)>) -> (rows: Vec<TreeRow>)
    ensures
        row_views(rows@) == tree_rows(views(files@), stats@),
{
    let ghost fv = views(files@);
    let mut rows: Vec<TreeRow> = Vec::new();
    let mut prev: Vec<Vec<char>> = Vec::new();
    let mut i: usize = 0;
    assert(fv.take(0) =~= Seq::<Seq<char>>::empty());
    assert(row_views(rows@) =~= seq![]);
    assert(prev@.map_values(|d: Vec<char>| d@) =~= seq![]);
    while i < files.len()
        invariant
            i <= files.len(),
            fv == views(files@),
            (row_views(rows@), prev@.map_values(|d: Vec<char>| d@)) == tree_state(
                fv.take(i as int),
                stats@,
            ),
        decreases files.len() - i,
    {
        let cs = chars_of(files[i].as_str());
        let parts = split_chars(&cs, '/');
        let ghost pv = parts@.map_values(|d: Vec<char>| d@);
        let ndirs = parts.len() - 1;
        let ghost dirs = pv.drop_last();
        let ghost prevv = prev@.map_values(|d: Vec<char>| d@);
        proof {
            assert(fv.take(i + 1).drop_last() =~= fv.take(i as int));
            assert(fv.take(i + 1).last() == files@[i as int]@);
        }
        // shared leading directories
        let mut common: usize = 0;
        while common < ndirs && common < prev.len() && chars_eq(&parts[common], &prev[common])
            invariant
                ndirs == parts.len() - 1,
                pv == parts@.map_values(|d: Vec<char>| d@),
                prevv == prev@.map_values(|d: Vec<char>| d@),
                dirs == pv.drop_last(),
                common <= ndirs,
                common <= prev.len(),
                forall|j: int| 0 <= j < common ==> dirs[j] == prevv[j],
            decreases ndirs - common,
        {
            common += 1;
        }
        proof {
            lemma_common_len(dirs, prevv, common as nat);
        }
        let ghost before = row_views(rows@);
        let mut depth = common;
        while depth < ndirs
            invariant
                ndirs == parts.len() - 1,
                pv == parts@.map_values(|d: Vec<char>| d@),
                dirs == pv.drop_last(),
                common <= depth <= ndirs,
                row_views(rows@) == before + dir_rows(dirs, common as nat).take(depth - common),
            decreases ndirs - depth,
        {
            let mut s = String::new();
            push_indent(&mut s, depth);
            push_chars(&mut s, &parts[depth]);
            s.append("/");
            let row = TreeRow::Dir(s);
            proof {
                assert(row@ == dir_rows(dirs, common as nat)[depth - common]);
                assert(row_views(rows@.push(row)) =~= row_views(rows@).push(row@));
                assert(dir_rows(dirs, common as nat).take(depth + 1 - common) =~= dir_rows(
                    dirs,
                    common as nat,
                ).take(depth - common).push(row@));
            }
            rows.push(row);
            depth += 1;
        }
        proof {
            assert(dir_rows(dirs, common as nat).take(ndirs - common) =~= dir_rows(dirs, common as nat));
        }
        let (added, deleted) = if i < stats.len() {
            stats[i]
        } else {
            (0, 0)
        };
        let mut s = String::new();
        push_indent(&mut s, ndirs);
        push_chars(&mut s, &parts[ndirs]);
        s.append("  +");
        push_decimal(&mut s, added);
        s.append(" -");
        push_decimal(&mut s, deleted);
        let row = TreeRow::File(i, s);
        proof {
            assert(pv.last() == parts@[ndirs as int]@);
            assert(row@ == file_row(i as int, fv[i as int], stat_of(stats@, i as int)));
            assert(row_views(rows@.push(row)) =~= row_views(rows@).push(row@));
        }
        rows.push(row);
        let mut next: Vec<Vec<char>> = Vec::new();
        let mut k: usize = 0;
        while k < ndirs
            invariant
                ndirs == parts.len() - 1,
                pv == parts@.map_values(|d: Vec<char>| d@),
                k <= ndirs,
                next@.map_values(|d: Vec<char>| d@) == pv.take(k as int),
            decreases ndirs - k,
        {
            let d = chars_of_vec(&parts[k]);
            proof {
                assert(next@.push(d).map_values(|x: Vec<char>| x@) =~= next@.map_values(|x: Vec<char>| x@).push(d@));
                assert(pv.take(k + 1) =~= pv.take(k as int).push(pv[k as int]));
            }
            next.push(d);
            k += 1;
        }
        proof {
            assert(pv.take(ndirs as int) =~= dirs);
        }
        prev = next;
        i += 1;
    }
    assert(fv.take(files@.len() as int) =~= fv);
    rows
}

/// A copy of `cs`.
fn chars_of_vec(cs: &Vec<char>) -> (r: Vec<char>)
    ensures
        r@ == cs@,
{
    let mut r: Vec<char> = Vec::new();
    let mut i: usize = 0;
    while i < cs.len()
        invariant
            i <= cs.len(),
            r@ == cs@.take(i as int),
        decreases cs.len() - i,
    {
        r.push(cs[i]);
        assert(cs@.take(i + 1) =~= cs@.take(i as int).push(cs@[i as int]));
        i += 1;
    }
    assert(cs@.take(cs@.len() as int) =~= cs@);
    r
}

// ---------------------------------------------------------------------------
// Labels and prompts
// ---------------------------------------------------------------------------

/// How a stash is listed: reference, then `[branch]` when there is one, then the message.
pub open spec fn spec_stash_label(s: StashView) -> Seq<char> {
    if s.branch.len() == 0 {
        s.reference + "  "@ + s.message
    } else {
        s.reference + "  ["@ + s.branch + "] "@ + s.message
    }
}

pub fn stash_label(s: &Stash) -> (r: String)
    ensures
        r@ == spec_stash_label(s@),
{
    if s.branch.as_str().is_empty() {
        let mut r = concat(s.reference.as_str(), "  ");
        r.append(s.message.as_str());
        r
    } else {
        let mut r = concat(s.reference.as_str(), "  [");
        r.append(s.branch.as_str());
        r.append("] ");
        r.append(s.message.as_str());
        r
    }
}

/// The selected stash's reference, or `-` when there is none.
pub open spec fn shown_reference(a: AppView) -> Seq<char> {
    match a.current() {
        Some(s) => s.reference,
        None => "-"@,
    }
}

fn reference_text(app: &App) -> (r: String)
    ensures
        r@ == shown_reference(app@),
{
    match app.current() {
        Some(s) => String::from_str(s.reference.as_str()),
        None => String::from_str("-"),
    }
}

/// The title of the right pane.
pub open spec fn spec_pane_title(a: AppView) -> Seq<char> {
    match a.mode {
        Mode::List => shown_reference(a) + " — diff"@,
        Mode::Tree => shown_reference(a) + " — files"@,
        Mode::FileDiff => if a.file_i < a.files.len() {
            a.files[a.file_i as int] + "  (h: back)"@
        } else {
            seq![]
        },
    }
}

pub fn pane_title(app: &App) -> (r: String)
    ensures
        r@ == spec_pane_title(app@),
{
    match app.mode {
        Mode::List => {
            let mut r = reference_text(app);
            r.append(" — diff");
            r
        },
        Mode::Tree => {
            let mut r = reference_text(app);
            r.append(" — files");
            r
        },
        Mode::FileDiff => {
            if app.file_i < app.files.len() {
                concat(app.files[app.file_i].as_str(), "  (h: back)")
            } else {
                String::new()
            }
        },
    }
}

/// The key help of each mode.
pub open spec fn spec_keys(mode: Mode) -> Seq<char> {
    match mode {
        Mode::List => "j/k move  l files  Enter pop stash  Ctrl-u/d scroll  q quit"@,
        Mode::Tree => "j/k file  l open  p pop file  h back  Enter pop stash  Ctrl-u/d scroll  q quit"@,
        Mode::FileDiff => "j/k/Ctrl-u/d scroll  p pop file  h back  Enter pop stash  q quit"@,
    }
}

/// The footer: the key help, then the status message when there is one.
pub open spec fn spec_footer(a: AppView) -> Seq<char> {
    match a.status {
        Some(s) => spec_keys(a.mode) + "  |  "@ + s,
        None => spec_keys(a.mode),
    }
}

fn keys(mode: Mode) -> (r: &'static str)
    ensures
        r@ == spec_keys(mode),
{
    match mode {
        Mode::List => "j/k move  l files  Enter pop stash  Ctrl-u/d scroll  q quit",
        Mode::Tree => "j/k file  l open  p pop file  h back  Enter pop stash  Ctrl-u/d scroll  q quit",
        Mode::FileDiff => "j/k/Ctrl-u/d scroll  p pop file  h back  Enter pop stash  q quit",
    }
}

pub fn footer(app: &App) -> (r: String)
    ensures
        r@ == spec_footer(app@),
{
    match &app.status {
        Some(s) => {
            let mut r = concat(keys(app.mode), "  |  ");
            r.append(s.as_str());
            r
        },
        None => String::from_str(keys(app.mode)),
    }
}

/// The question of the open prompt.
pub open spec fn spec_confirm_message(a: AppView) -> Option<Seq<char>> {
    match a.confirm {
        None => None,
        Some(Confirm::PopStash) => Some("Pop "@ + shown_reference(a) + "? (y/n)"@),
        Some(Confirm::PopFile) => {
            let file = if a.file_i < a.files.len() {
                a.files[a.file_i as int]
            } else {
                "?"@
            };
            Some("Pop only "@ + file + " from "@ + shown_reference(a) + "? (y/n)"@)
        },
    }
}

pub fn confirm_message(app: &App) -> (r: Option<String>)
    ensures
        match r {
            Some(m) => spec_confirm_message(app@) == Some(m@),
            None => spec_confirm_message(app@) is None,
        },
{
    match app.confirm {
        None => None,
        Some(Confirm::PopStash) => {
            let reference = reference_text(app);
            let mut r = concat("Pop ", reference.as_str());
            r.append("? (y/n)");
            Some(r)
        },
        Some(Confirm::PopFile) => {
            let reference = reference_text(app);
            let mut r = String::from_str("Pop only ");
            if app.file_i < app.files.len() {
                r.append(app.files[app.file_i].as_str());
            } else {
                r.append("?");
            }
            r.append(" from ");
            r.append(reference.as_str());
            r.append("? (y/n)");
            Some(r)
        },
    }
}

/// How a diff line is coloured.
#[derive(Debug, Clone, Copy, PartialEq, Eq, Structural)]
pub enum DiffLine {
    /// `diff`, `index`, `---` and `+++` header lines.
    Meta,
    Added,
    Removed,
    /// `@@` hunk headers.
    Hunk,
    Context,
}

pub open spec fn starts_with(s: Seq<char>, p: Seq<char>) -> bool {
    p.len() <= s.len() && s.take(p.len() as int) == p
}

pub open spec fn spec_line_kind(l: Seq<char>) -> DiffLine {
    if starts_with(l, "+++"@) || starts_with(l, "---"@) || starts_with(l, "diff "@) || starts_with(
        l,
        "index "@,
    ) {
        DiffLine::Meta
    } else if starts_with(l, "+"@) {
        DiffLine::Added
    } else if starts_with(l, "-"@) {
        DiffLine::Removed
    } else if starts_with(l, "@@"@) {
        DiffLine::Hunk
    } else {
        DiffLine::Context
    }
}

fn has_prefix(cs: &Vec<char>, p: &str) -> (r: bool)
    ensures
        r == starts_with(cs@, p@),
{
    let pc = chars_of(p);
    let r = matches_at(cs, &pc, 0);
    assert(pc@.len() <= cs@.len() ==> cs@.subrange(0, pc@.len() as int) =~= cs@.take(
        pc@.len() as int,
    ));
    r
}

pub fn line_kind(line: &str) -> (r: DiffLine)
    ensures
        r == spec_line_kind(line@),
{
    let cs = chars_of(line);
    if has_prefix(&cs, "+++") || has_prefix(&cs, "---") || has_prefix(&cs, "diff ") || has_prefix(
        &cs,
        "index ",
    ) {
        DiffLine::Meta
    } else if has_prefix(&cs, "+") {
        DiffLine::Added
    } else if has_prefix(&cs, "-") {
        DiffLine::Removed
    } else if has_prefix(&cs, "@@") {
        DiffLine::Hunk
    } else {
        DiffLine::Context
    }
}

} // verus!
