//! Properties of the browser as a whole, proved over the specifications.
use vstd::prelude::*;
use crate::app::{AppView, Confirm, GitCallView, Mode, stat_paths};
use crate::event::{Key, KeyPress, Mouse, MouseKind};
use crate::git::{spec_file_stats, spec_others, spec_parse_line};
use crate::text::{first_occurrence, is_first_occurrence, join, lines, occurs_at, split_once, strip_cr};
use crate::ui::{spec_contains, Area, common_len, dir_rows, file_row, stat_of, tree_rows, tree_state, TreeRowView};

verus! {

/// `x` kept between `lo` and `hi`.
pub open spec fn within(x: int, lo: int, hi: int) -> int {
    if x <= lo {
        lo
    } else if x >= hi {
        hi
    } else {
        x
    }
}

/// The pending run pops something.
pub open spec fn pops(a: AppView) -> bool {
    match a.pending {
        Some(GitCallView::Pop { .. }) => true,
        Some(GitCallView::PopFile { .. }) => true,
        _ => false,
    }
}

/// Popping is the only change to the repository, and it always asks first: a
/// key press leads to a pop only when a prompt is open and the key is a plain `y`.
pub proof fn law_pop_only_after_confirm(a: AppView, k: KeyPress)
    requires
        a.pending is None,
    ensures
        pops(a.handle(k)) ==> a.confirm is Some && !k.ctrl && k.key == Key::Char('y'),
{
}

/// A mouse event never pops anything.
pub proof fn law_mouse_never_pops(a: AppView, m: Mouse, left: crate::ui::Area, right: crate::ui::Area)
    requires
        a.pending is None,
    ensures
        !pops(a.on_mouse(m, left, right)),
{
}

/// Answering `y` to the pop prompt pops the selected stash.
pub proof fn law_yes_pops_selected(a: AppView)
    requires
        a.confirm == Some(Confirm::PopStash),
        a.list_i < a.stashes.len(),
    ensures
        a.handle(KeyPress { key: Key::Char('y'), ctrl: false }).pending == Some(
            GitCallView::Pop { reference: a.stashes[a.list_i as int].reference },
        ),
        a.handle(KeyPress { key: Key::Char('y'), ctrl: false }).confirm is None,
{
}

/// With the prompt open, any plain key but `y` leaves the state as it was,
/// except that `n` and Esc close the prompt.
pub proof fn law_prompt_cancels(a: AppView, k: KeyPress)
    requires
        a.confirm is Some,
        !k.ctrl,
        k.key != Key::Char('y'),
    ensures
        a.handle(k) == a || a.handle(k) == (AppView { confirm: None, ..a }),
{
}

/// Control-c quits from any state.
pub proof fn law_ctrl_c_quits(a: AppView)
    ensures
        a.handle(KeyPress { key: Key::Char('c'), ctrl: true }).should_quit,
{
}

/// Moving the selection keeps it within the list, whatever the distance:
/// it clamps at the top and at the bottom.
pub proof fn law_select_clamps(a: AppView, delta: isize)
    requires
        a.select_ok(delta),
    ensures
        a.mode == Mode::List && a.stashes.len() > 0 ==> a.select(delta).list_i < a.stashes.len(),
        a.mode == Mode::Tree && a.files.len() > 0 ==> a.select(delta).file_i < a.files.len(),
        a.mode == Mode::List && a.stashes.len() > 0 && a.list_i <= isize::MAX ==> a.select(
            delta,
        ).list_i == within(a.list_i + delta, 0, a.stashes.len() - 1),
        a.mode == Mode::Tree && a.files.len() > 0 && a.file_i <= isize::MAX ==> a.select(
            delta,
        ).file_i == within(a.file_i + delta, 0, a.files.len() - 1),
{
}

/// In the list, the diff follows the selection: moving it asks for the
/// newly selected stash's patch.
pub proof fn law_diff_follows_selection(a: AppView, delta: isize)
    requires
        a.mode == Mode::List,
        a.stashes.len() > 0,
        a.select_ok(delta),
    ensures
        a.select(delta).pending == Some(
            GitCallView::Diff { reference: a.stashes[a.select(delta).list_i as int].reference },
        ),
{
}

/// Scrolling a diff clamps at its first and last line (for diffs whose line
/// count fits the scroll offset's range).
pub proof fn law_scroll_clamps(a: AppView, delta: i32)
    requires
        a.scroll_ok(delta),
        a.mode != Mode::Tree,
        0 < a.diff.len() <= u16::MAX + 1,
    ensures
        a.scroll_by(delta).scroll == within(a.scroll + delta, 0, a.diff.len() - 1),
{
}

/// Every refresh of the diff starts at the top, and nothing is shown until
/// the `git` output arrives.
pub proof fn law_refresh_resets_scroll(a: AppView)
    ensures
        a.refresh_diff().scroll == 0,
        a.refresh_diff().diff.len() == 0,
{
}

/// Opening a file of the tree shows that file's change, from the top.
pub proof fn law_open_file(a: AppView)
    requires
        a.files.len() > 0,
        a.file_i < a.files.len(),
        a.list_i < a.stashes.len(),
    ensures
        a.enter_file_diff().mode == Mode::FileDiff,
        a.enter_file_diff().scroll == 0,
        a.enter_file_diff().pending == Some(
            GitCallView::FileDiff {
                reference: a.stashes[a.list_i as int].reference,
                path: a.files[a.file_i as int],
            },
        ),
{
}

/// Entering the tree lists the stash's files and shows no diff until a file
/// is opened.
pub proof fn law_tree_has_no_diff(a: AppView, text: Seq<char>)
    requires
        a.pending matches Some(GitCallView::FileStats { .. }),
        spec_file_stats(text).len() > 0,
    ensures
        a.complete(Ok(text)).mode == Mode::Tree,
        a.complete(Ok(text)).diff.len() == 0,
        a.complete(Ok(text)).file_i == 0,
        a.complete(Ok(text)).files == stat_paths(spec_file_stats(text)),
        a.complete(Ok(text)).files.len() == a.complete(Ok(text)).file_stats.len(),
{
}

/// Going back from a file's diff returns to the tree with nothing shown;
/// going back from the tree returns to the list and forgets the files.
pub proof fn law_back(a: AppView)
    ensures
        a.back_to_tree().mode == Mode::Tree,
        a.back_to_tree().diff.len() == 0,
        a.back_to_list().mode == Mode::List,
        a.back_to_list().files.len() == 0,
        a.back_to_list().file_stats.len() == 0,
        a.back_to_list().list_i == a.list_i,
{
}

/// Opening a file and going back returns to the same place in the tree.
pub proof fn law_open_then_back(a: AppView)
    requires
        a.mode == Mode::Tree,
        a.files.len() > 0,
    ensures
        a.enter_file_diff().back_to_tree().mode == Mode::Tree,
        a.enter_file_diff().back_to_tree().files == a.files,
        a.enter_file_diff().back_to_tree().file_stats == a.file_stats,
        a.enter_file_diff().back_to_tree().file_i == a.file_i,
        a.enter_file_diff().back_to_tree().list_i == a.list_i,
{
}

/// The wheel over the stash list, which stays visible however deep the view,
/// moves the stash selection within the list and returns to the list view.
pub proof fn law_wheel_over_list(a: AppView, m: Mouse, left: Area, right: Area)
    requires
        a.mouse_ok(),
        a.stashes.len() > 0,
        m.kind == MouseKind::ScrollDown || m.kind == MouseKind::ScrollUp,
        spec_contains(left, m.column, m.row),
        !spec_contains(right, m.column, m.row),
    ensures
        a.on_mouse(m, left, right).mode == Mode::List,
        a.on_mouse(m, left, right).list_i < a.stashes.len(),
        a.on_mouse(m, left, right).files.len() == 0,
{
}

/// Taking in an outcome always settles the pending run; with none pending,
/// nothing changes.
pub proof fn law_complete_settles(a: AppView, outcome: Result<Seq<char>, Seq<char>>)
    ensures
        a.complete(outcome).pending is None,
        a.pending is None ==> a.complete(outcome) == a,
{
}

/// A failed `git` run never quits the browser; its message is shown.
pub proof fn law_failure_is_reported(a: AppView, e: Seq<char>)
    requires
        a.pending is Some,
    ensures
        a.complete(Err(e)).status == Some(e),
        a.complete(Err(e)).should_quit == a.should_quit,
        a.complete(Err(e)).popped == a.popped,
{
}

/// `s` is `s` up to `i`, the pattern, and the rest.
proof fn lemma_occurrence_splits(s: Seq<char>, pat: Seq<char>, i: int)
    requires
        occurs_at(s, pat, i),
    ensures
        s == s.take(i) + pat + s.skip(i + pat.len()),
{
    assert(s =~= s.take(i) + s.subrange(i, i + pat.len()) + s.skip(i + pat.len()));
}

/// `split_once` cuts at the first separator: the text is the part before,
/// the separator, and the part after; the part before holds no separator.
pub proof fn law_split_once(s: Seq<char>, pat: Seq<char>)
    requires
        pat.len() > 0,
    ensures
        match split_once(s, pat) {
            Some((a, b)) => s == a + pat + b && forall|j: int| !occurs_at(a, pat, j),
            None => forall|j: int| !occurs_at(s, pat, j),
        },
{
    match first_occurrence(s, pat) {
        Some(i) => {
            assert(is_first_occurrence(s, pat, i));
            lemma_occurrence_splits(s, pat, i);
            let a = s.take(i);
            assert forall|j: int| !occurs_at(a, pat, j) by {
                if occurs_at(a, pat, j) {
                    assert(a.subrange(j, j + pat.len()) =~= s.subrange(j, j + pat.len()));
                    assert(occurs_at(s, pat, j));
                    assert(j < i);
                }
            }
        },
        None => {
            assert forall|j: int| !occurs_at(s, pat, j) by {
                if occurs_at(s, pat, j) {
                    lemma_first_exists(s, pat, j);
                }
            }
        },
    }
}

/// If `pat` occurs at all, it has a first occurrence.
proof fn lemma_first_exists(s: Seq<char>, pat: Seq<char>, j: int)
    requires
        occurs_at(s, pat, j),
    ensures
        exists|i: int| is_first_occurrence(s, pat, i),
    decreases j,
{
    if exists|m: int| 0 <= m < j && occurs_at(s, pat, m) {
        let m = choose|m: int| 0 <= m < j && occurs_at(s, pat, m);
        lemma_first_exists(s, pat, m);
    } else {
        assert(is_first_occurrence(s, pat, j));
    }
}

/// A stash line is read back exactly: the reference, `": "`, then either the
/// message alone (with no branch), or `"WIP on "`/`"On "`, the branch, `": "`
/// and the message. The reference itself never holds `": "`, and a line
/// without `": "` is no stash.
pub proof fn law_parse_line_reads_back(line: Seq<char>)
    ensures
        spec_parse_line(line) is None <==> forall|j: int| !occurs_at(line, ": "@, j),
        spec_parse_line(line) matches Some(s) ==> {
            &&& forall|j: int| !occurs_at(s.reference, ": "@, j)
            &&& {
                ||| s.branch.len() == 0 && line == s.reference + ": "@ + s.message
                ||| line == s.reference + ": "@ + "WIP on "@ + s.branch + ": "@ + s.message
                ||| line == s.reference + ": "@ + "On "@ + s.branch + ": "@ + s.message
            }
        },
{
    reveal_strlit(": ");
    law_split_once(line, ": "@);
    match split_once(line, ": "@) {
        None => {},
        Some((reference, tail)) => {
            let wip = "WIP on "@;
            let on = "On "@;
            if wip.len() <= tail.len() && tail.take(wip.len() as int) == wip {
                let r = tail.skip(wip.len() as int);
                assert(tail =~= wip + r);
                law_split_once(r, ": "@);
            } else if on.len() <= tail.len() && tail.take(on.len() as int) == on {
                let r = tail.skip(on.len() as int);
                assert(tail =~= on + r);
                law_split_once(r, ": "@);
            }
        },
    }
}

/// No line that `lines` yields holds a line feed.
pub proof fn law_lines_have_no_newline(s: Seq<char>)
    ensures
        forall|i: int, j: int|
            0 <= i < lines(s).len() && 0 <= j < lines(s)[i].len() ==> lines(s)[i][j] != '\n',
    decreases s.len(),
{
    if s.len() > 0 {
        match crate::text::index_of(s, '\n') {
            Some(k) => {
                if 0 <= k < s.len() {
                    let rest = s.skip(k + 1);
                    law_lines_have_no_newline(rest);
                    let first = strip_cr(s.take(k));
                    assert(crate::text::is_first_char(s, '\n', k));
                    assert forall|i: int, j: int|
                        0 <= i < lines(s).len() && 0 <= j < lines(s)[i].len() implies lines(s)[i][j] != '\n' by {
                        if i == 0 {
                            assert(lines(s)[0] == first);
                            assert(first[j] == s[j]);
                        } else {
                            assert(lines(s)[i] == lines(rest)[i - 1]);
                        }
                    }
                }
            },
            None => {
                assert forall|j: int| 0 <= j < s.len() implies s[j] != '\n' by {
                    if s[j] == '\n' {
                        lemma_first_char_exists(s, '\n', j);
                    }
                }
            },
        }
    }
}

/// If `c` occurs at all, it has a first position.
proof fn lemma_first_char_exists(s: Seq<char>, c: char, j: int)
    requires
        0 <= j < s.len(),
        s[j] == c,
    ensures
        exists|i: int| crate::text::is_first_char(s, c, i),
    decreases j,
{
    if exists|m: int| 0 <= m < j && s[m] == c {
        let m = choose|m: int| 0 <= m < j && s[m] == c;
        lemma_first_char_exists(s, c, m);
    } else {
        assert(crate::text::is_first_char(s, c, j));
    }
}

/// The re-stash after popping one file names exactly the stash's other
/// files: never the popped one, and every other one.
pub proof fn law_others(all_files: Seq<Seq<char>>, path: Seq<char>)
    ensures
        forall|i: int| 0 <= i < spec_others(all_files, path).len() ==> spec_others(all_files, path)[i] != path,
        forall|i: int| 0 <= i < all_files.len() && all_files[i] != path ==> spec_others(all_files, path).contains(all_files[i]),
        forall|i: int| 0 <= i < spec_others(all_files, path).len() ==> all_files.contains(spec_others(all_files, path)[i]),
    decreases all_files.len(),
{
    if all_files.len() > 0 {
        let init = all_files.drop_last();
        law_others(init, path);
        let before = spec_others(init, path);
        assert forall|i: int| 0 <= i < all_files.len() && all_files[i] != path implies spec_others(all_files, path).contains(all_files[i]) by {
            if i < all_files.len() - 1 {
                assert(init[i] == all_files[i]);
                let k = choose|k: int| 0 <= k < before.len() && before[k] == init[i];
                if all_files.last() != path {
                    assert(spec_others(all_files, path)[k] == before[k]);
                }
            } else {
                assert(spec_others(all_files, path).last() == all_files[i]);
            }
        }
        assert forall|i: int| 0 <= i < spec_others(all_files, path).len() implies all_files.contains(spec_others(all_files, path)[i]) by {
            if i < before.len() {
                assert(spec_others(all_files, path)[i] == before[i]);
                let k = choose|k: int| 0 <= k < init.len() && init[k] == before[i];
                assert(all_files[k] == init[k]);
            } else {
                assert(all_files[all_files.len() - 1] == all_files.last());
            }
        }
    }
}

/// The indices carried by the file rows, in order.
pub open spec fn file_indices(rows: Seq<TreeRowView>) -> Seq<usize>
    decreases rows.len(),
{
    if rows.len() == 0 {
        seq![]
    } else {
        let before = file_indices(rows.drop_last());
        match rows.last() {
            TreeRowView::File(i, _) => before.push(i),
            TreeRowView::Dir(_) => before,
        }
    }
}

proof fn lemma_file_indices_dirs(rows: Seq<TreeRowView>, d: Seq<TreeRowView>)
    requires
        forall|k: int| 0 <= k < d.len() ==> d[k] is Dir,
    ensures
        file_indices(rows + d) == file_indices(rows),
    decreases d.len(),
{
    if d.len() > 0 {
        assert((rows + d).drop_last() =~= rows + d.drop_last());
        assert((rows + d).last() == d.last());
        lemma_file_indices_dirs(rows, d.drop_last());
    } else {
        assert(rows + d =~= rows);
    }
}

/// Every file shows up exactly once in the tree, in order: the file rows carry
/// the indices `0, 1, …` of `files`, so a clicked row leads back to its file.
pub proof fn law_tree_lists_every_file_once(files: Seq<Seq<char>>, stats: Seq<(u32, u32)>)
    ensures
        file_indices(tree_rows(files, stats)) == Seq::new(files.len(), |i: int| i as usize),
    decreases files.len(),
{
    if files.len() > 0 {
        let init = files.drop_last();
        law_tree_lists_every_file_once(init, stats);
        let (rows, prev) = tree_state(init, stats);
        let i = files.len() - 1;
        let dirs = crate::text::split_char(files.last(), '/').drop_last();
        let with_dirs = rows + dir_rows(dirs, common_len(dirs, prev));
        lemma_file_indices_dirs(rows, dir_rows(dirs, common_len(dirs, prev)));
        let all = with_dirs.push(file_row(i, files.last(), stat_of(stats, i)));
        assert(all.drop_last() =~= with_dirs);
        assert(file_indices(all) =~= Seq::new(files.len(), |k: int| k as usize));
    }
}

} // verus!

verus! {

// ---------------------------------------------------------------------------
// Reading stash lines
// ---------------------------------------------------------------------------

/// When `a` holds no two-character separator `pat` (whose characters differ),
/// the first separator in `a + pat + b` is the one right after `a`.
pub proof fn lemma_first_separator(a: Seq<char>, pat: Seq<char>, b: Seq<char>)
    requires
        pat.len() == 2,
        pat[0] != pat[1],
        forall|j: int| !occurs_at(a, pat, j),
    ensures
        split_once(a + pat + b, pat) == Some((a, b)),
{
    let s = a + pat + b;
    let n = a.len() as int;
    assert(s.subrange(n, n + 2) =~= pat);
    assert forall|j: int| 0 <= j < n implies !occurs_at(s, pat, j) by {
        if occurs_at(s, pat, j) {
            if j + 2 <= n {
                assert forall|t: int| 0 <= t < 2 implies a.subrange(j, j + 2)[t] == pat[t] by {
                    assert(a[j + t] == s[j + t]);
                    assert(s.subrange(j, j + 2)[t] == pat[t]);
                }
                assert(a.subrange(j, j + 2) =~= pat);
                assert(occurs_at(a, pat, j));
            } else {
                assert(s.subrange(j, j + 2)[1] == pat[1]);
                assert(s[n] == pat[0]);
            }
        }
    }
    assert(is_first_occurrence(s, pat, n));
    crate::text::lemma_first_occurrence(s, pat, n);
    assert(s.take(n) =~= a);
    assert(s.skip(n + 2) =~= b);
}

/// A stash line `R: <prefix>B: M`, with prefix `WIP on ` or `On ` and no `": "`
/// in the reference `R` or the branch `B`, reads as reference `R`, branch `B`
/// and message `M`: the branch ends at the first `": "` after the prefix,
/// whatever the message holds.
pub proof fn law_parse_line_branch(r: Seq<char>, wip: bool, b: Seq<char>, m: Seq<char>)
    requires
        forall|j: int| !occurs_at(r, ": "@, j),
        forall|j: int| !occurs_at(b, ": "@, j),
    ensures
        ({
            let prefix = if wip { "WIP on "@ } else { "On "@ };
            spec_parse_line(r + ": "@ + prefix + b + ": "@ + m) == Some(
                crate::git::StashView { reference: r, branch: b, message: m },
            )
        }),
{
    reveal_strlit(": ");
    reveal_strlit("WIP on ");
    reveal_strlit("On ");
    let sep = ": "@;
    let prefix = if wip { "WIP on "@ } else { "On "@ };
    let tail = prefix + b + sep + m;
    let line = r + sep + prefix + b + sep + m;
    assert(line =~= r + sep + tail);
    lemma_first_separator(r, sep, tail);
    let rest = b + sep + m;
    assert(tail =~= prefix + rest);
    lemma_first_separator(b, sep, m);
    let w = "WIP on "@;
    let o = "On "@;
    if wip {
        assert(tail.take(w.len() as int) =~= w);
        assert(tail.skip(w.len() as int) =~= rest);
    } else {
        if w.len() <= tail.len() {
            assert(tail.take(w.len() as int)[0] != w[0]);
        }
        assert(tail.take(o.len() as int) =~= o);
        assert(tail.skip(o.len() as int) =~= rest);
    }
}

// ---------------------------------------------------------------------------
// Counting lines
// ---------------------------------------------------------------------------

/// A single digit reads as its distance from `'0'`.
pub proof fn law_parse_u32_digit(c: char)
    requires
        '0' <= c <= '9',
    ensures
        crate::text::parse_u32(seq![c]) == Some((c as int - '0' as int) as u32),
{
    let s = seq![c];
    assert(s.drop_last() =~= Seq::<char>::empty());
    assert(crate::text::unsigned_body(s) == s);
    assert(crate::text::all_digits(s));
    assert(s.last() == c);
    assert(crate::text::digits_value(s.drop_last()) == 0);
    assert(crate::text::digits_value(s) == crate::text::digit_value(c));
}

/// Appending a digit `c` to a count `v` reads as `10 * v + (c - '0')`, as long
/// as that fits in a `u32`.
pub proof fn law_parse_u32_append_digit(s: Seq<char>, v: u32, c: char)
    requires
        s.len() > 0,
        s[0] != '+',
        crate::text::parse_u32(s) == Some(v),
        '0' <= c <= '9',
        10 * v + (c as int - '0' as int) <= u32::MAX,
    ensures
        crate::text::parse_u32(s.push(c)) == Some((10 * v + (c as int - '0' as int)) as u32),
{
    let t = s.push(c);
    assert(t.drop_last() =~= s);
    assert(crate::text::unsigned_body(s) == s);
    assert(crate::text::unsigned_body(t) == t);
    assert(crate::text::all_digits(t)) by {
        assert forall|i: int| 0 <= i < t.len() implies crate::text::is_digit(t[i]) by {
            if i < s.len() {
                assert(t[i] == s[i]);
            }
        }
    }
}

/// Decimal digits of every `u32` read back as that number.
pub proof fn law_parse_u32_reads_decimal(n: u32)
    ensures
        crate::text::parse_u32(crate::text::decimal(n as nat)) == Some(n),
    decreases n,
{
    if n < 10 {
        law_parse_u32_digit(crate::text::digit_char(n as nat));
        assert(crate::text::decimal(n as nat) =~= seq![crate::text::digit_char(n as nat)]);
    } else {
        let q = (n / 10) as u32;
        law_parse_u32_reads_decimal(q);
        lemma_decimal_first_not_plus(q as nat);
        let c = crate::text::digit_char((n % 10) as nat);
        law_parse_u32_append_digit(crate::text::decimal(q as nat), q, c);
    }
}

proof fn lemma_decimal_first_not_plus(n: nat)
    ensures
        crate::text::decimal(n).len() > 0,
        crate::text::decimal(n)[0] != '+',
    decreases n,
{
    if n >= 10 {
        lemma_decimal_first_not_plus(n / 10);
        assert(crate::text::decimal(n)[0] == crate::text::decimal(n / 10)[0]);
    }
}

/// A `--numstat` line `A\tD\tP` with no tab in `A` or `D` gives path `P` and
/// the counts that `A` and `D` read as (0 where they do not read).
pub proof fn law_stat_line(a: Seq<char>, d: Seq<char>, p: Seq<char>)
    requires
        forall|j: int| 0 <= j < a.len() ==> a[j] != '\t',
        forall|j: int| 0 <= j < d.len() ==> d[j] != '\t',
    ensures
        crate::git::spec_stat_line(a + seq!['\t'] + d + seq!['\t'] + p) == Some(
            (p, crate::text::parse_u32_or_zero(a), crate::text::parse_u32_or_zero(d)),
        ),
{
    let l = a + seq!['\t'] + d + seq!['\t'] + p;
    let i = a.len() as int;
    assert(crate::text::is_first_char(l, '\t', i));
    crate::text::lemma_first_char(l, '\t', i);
    let r = l.skip(i + 1);
    assert(r =~= d + seq!['\t'] + p);
    let j = d.len() as int;
    assert(crate::text::is_first_char(r, '\t', j));
    crate::text::lemma_first_char(r, '\t', j);
    assert(l.take(i) =~= a);
    assert(r.take(j) =~= d);
    assert(r.skip(j + 1) =~= p);
}

/// Text that starts with a line `l` (no line feed in it) and a line feed has
/// `l`, less a trailing carriage return, as its first line.
pub proof fn law_lines_first(l: Seq<char>, rest: Seq<char>)
    requires
        forall|j: int| 0 <= j < l.len() ==> l[j] != '\n',
    ensures
        lines(l + seq!['\n'] + rest) == seq![strip_cr(l)] + lines(rest),
{
    let s = l + seq!['\n'] + rest;
    let k = l.len() as int;
    assert(crate::text::is_first_char(s, '\n', k));
    crate::text::lemma_lines_step(s, k);
    assert(s.take(k) =~= l);
    assert(s.skip(k + 1) =~= rest);
}

// ---------------------------------------------------------------------------
// Popping a file
// ---------------------------------------------------------------------------

/// Answering `y` to the file prompt pops the selected file of the selected
/// stash, re-stashing all of that stash's files but it.
pub proof fn law_yes_pops_selected_file(a: AppView)
    requires
        a.confirm == Some(Confirm::PopFile),
        a.list_i < a.stashes.len(),
        a.file_i < a.files.len(),
    ensures
        a.handle(KeyPress { key: Key::Char('y'), ctrl: false }).pending == Some(
            GitCallView::PopFile {
                reference: a.stashes[a.list_i as int].reference,
                path: a.files[a.file_i as int],
                all_files: a.files,
            },
        ),
        a.handle(KeyPress { key: Key::Char('y'), ctrl: false }).confirm is None,
        a.handle(KeyPress { key: Key::Char('y'), ctrl: false }).files == a.files,
        a.handle(KeyPress { key: Key::Char('y'), ctrl: false }).file_i == a.file_i,
{
}

// ---------------------------------------------------------------------------
// Scrolling a file's diff
// ---------------------------------------------------------------------------

/// While a file's diff is shown (no prompt), `k`/Up scroll three lines up and
/// `j`/Down three lines down, within the diff; nothing else changes.
pub proof fn law_keys_scroll_file_diff(a: AppView, k: KeyPress)
    requires
        a.mode == Mode::FileDiff,
        a.confirm is None,
        !k.ctrl,
        a.diff.len() <= i32::MAX,
        k.key == Key::Up || k.key == Key::Char('k') || k.key == Key::Down || k.key == Key::Char('j'),
    ensures
        ({
            let top = if a.diff.len() == 0 { 0 } else { a.diff.len() - 1 };
            let step = if k.key == Key::Up || k.key == Key::Char('k') { -3int } else { 3int };
            a.handle(k) == (AppView { scroll: within(a.scroll + step, 0, top) as u16, ..a })
        }),
{
}

// ---------------------------------------------------------------------------
// The file tree
// ---------------------------------------------------------------------------

/// The directories of a path: all its `/`-separated parts but the last.
pub open spec fn dirs_of(path: Seq<char>) -> Seq<Seq<char>> {
    crate::text::split_char(path, '/').drop_last()
}

proof fn lemma_tree_prev(files: Seq<Seq<char>>, stats: Seq<(u32, u32)>)
    ensures
        tree_state(files, stats).1 == (if files.len() == 0 { seq![] } else { dirs_of(files.last()) }),
{
}

/// Adding file `i` to the tree adds, after the rows of the files before it,
/// a header for each of its directories from the first level `k` at which
/// they part from the previous file's directories, then the file's own row.
/// A file in the same directories as the one before gets no header at all.
pub proof fn law_tree_headers_follow_previous_file(
    files: Seq<Seq<char>>,
    stats: Seq<(u32, u32)>,
    i: int,
    k: nat,
)
    requires
        0 <= i < files.len(),
        ({
            let d = dirs_of(files[i]);
            let p = if i == 0 { seq![] } else { dirs_of(files[i - 1]) };
            &&& k <= d.len()
            &&& k <= p.len()
            &&& forall|j: int| 0 <= j < k ==> d[j] == p[j]
            &&& (k == d.len() || k == p.len() || d[k as int] != p[k as int])
        }),
    ensures
        ({
            let d = dirs_of(files[i]);
            let parts = crate::text::split_char(files[i], '/');
            let (added, deleted) = stat_of(stats, i);
            tree_rows(files.take(i + 1), stats) == (tree_rows(files.take(i), stats) + Seq::new(
                (d.len() - k) as nat,
                |j: int| TreeRowView::Dir(crate::ui::indent((k + j) as nat) + d[k + j] + "/"@),
            )).push(
                TreeRowView::File(
                    i as usize,
                    crate::ui::indent(d.len()) + parts.last() + "  +"@ + crate::text::decimal(
                        added as nat,
                    ) + " -"@ + crate::text::decimal(deleted as nat),
                ),
            )
        }),
{
    let f = files.take(i + 1);
    assert(f.drop_last() =~= files.take(i));
    assert(f.last() == files[i]);
    lemma_tree_prev(files.take(i), stats);
    let d = dirs_of(files[i]);
    let p = tree_state(files.take(i), stats).1;
    if i > 0 {
        assert(files.take(i).last() == files[i - 1]);
    }
    crate::ui::lemma_common_len(d, p, k);
    assert(dir_rows(d, k) =~= Seq::new(
        (d.len() - k) as nat,
        |j: int| TreeRowView::Dir(crate::ui::indent((k + j) as nat) + d[k + j] + "/"@),
    ));
}

/// A file in exactly the directories of the file before it adds one row:
/// its own.
pub proof fn law_tree_same_dirs_no_header(files: Seq<Seq<char>>, stats: Seq<(u32, u32)>, i: int)
    requires
        0 < i < files.len(),
        dirs_of(files[i]) == dirs_of(files[i - 1]),
    ensures
        tree_rows(files.take(i + 1), stats).len() == tree_rows(files.take(i), stats).len() + 1,
        tree_rows(files.take(i + 1), stats).last() is File,
{
    let d = dirs_of(files[i]);
    law_tree_headers_follow_previous_file(files, stats, i, d.len());
}

} // verus!

verus! {

// ---------------------------------------------------------------------------
// Trimming, splitting, joining
// ---------------------------------------------------------------------------

/// Blanks that every notion of white space includes.
pub open spec fn is_blank(c: char) -> bool {
    c == ' ' || c == '\t' || c == '\n' || c == '\r' || c == '\u{b}' || c == '\u{c}'
}

pub open spec fn all_blank(s: Seq<char>) -> bool {
    forall|i: int| 0 <= i < s.len() ==> is_blank(s[i])
}

/// Trailing blanks go; text that ends in something else stays whole.
pub proof fn law_trim_end(core: Seq<char>, w: Seq<char>)
    requires
        all_blank(w),
        core.len() == 0 || !crate::text::is_ws(core.last()),
    ensures
        crate::text::trim_end(core + w) == core,
    decreases w.len(),
{
    if w.len() == 0 {
        assert(core + w =~= core);
    } else {
        let s = core + w;
        assert(s.last() == w.last());
        assert(s.drop_last() =~= core + w.drop_last());
        law_trim_end(core, w.drop_last());
    }
}

proof fn lemma_trim_start(w: Seq<char>, core: Seq<char>)
    requires
        all_blank(w),
        core.len() == 0 || !crate::text::is_ws(core[0]),
    ensures
        crate::text::trim_start(w + core) == core,
    decreases w.len(),
{
    if w.len() == 0 {
        assert(w + core =~= core);
    } else {
        let s = w + core;
        assert(s[0] == w[0]);
        assert(s.drop_first() =~= w.drop_first() + core);
        lemma_trim_start(w.drop_first(), core);
    }
}

/// Leading and trailing blanks go; what lies between stays whole.
pub proof fn law_trim(w1: Seq<char>, core: Seq<char>, w2: Seq<char>)
    requires
        all_blank(w1),
        all_blank(w2),
        core.len() == 0 || (!crate::text::is_ws(core[0]) && !crate::text::is_ws(core.last())),
    ensures
        crate::text::trim(w1 + core + w2) == core,
{
    if core.len() == 0 {
        assert forall|i: int| 0 <= i < (w1 + w2).len() implies is_blank((w1 + w2)[i]) by {
            if i >= w1.len() {
                assert((w1 + w2)[i] == w2[i - w1.len()]);
            }
        }
        assert(w1 + core + w2 =~= (w1 + w2) + Seq::<char>::empty());
        lemma_trim_start(w1 + w2, Seq::<char>::empty());
        assert(crate::text::trim_end(Seq::<char>::empty()) == Seq::<char>::empty());
    } else {
        assert(w1 + core + w2 =~= w1 + (core + w2));
        assert((core + w2)[0] == core[0]);
        lemma_trim_start(w1, core + w2);
        law_trim_end(core, w2);
    }
}

/// Splitting at `c` cuts at each `c`, left to right.
pub proof fn law_split_char(a: Seq<char>, c: char, b: Seq<char>)
    requires
        forall|j: int| 0 <= j < a.len() ==> a[j] != c,
    ensures
        crate::text::split_char(a, c) == seq![a],
        crate::text::split_char(a + seq![c] + b, c) == seq![a] + crate::text::split_char(b, c),
{
    crate::text::lemma_split_last(a, c);
    let s = a + seq![c] + b;
    let k = a.len() as int;
    assert(crate::text::is_first_char(s, c, k));
    crate::text::lemma_split_step(s, c, k);
    assert(s.take(k) =~= a);
    assert(s.skip(k + 1) =~= b);
}

/// Joining puts the separator between the parts, and only there.
pub proof fn law_join(parts: Seq<Seq<char>>, x: Seq<char>, sep: Seq<char>)
    ensures
        join(seq![x], sep) == x,
        parts.len() > 0 ==> join(parts.push(x), sep) == join(parts, sep) + sep + x,
{
    assert(parts.push(x).drop_last() =~= parts);
}

// ---------------------------------------------------------------------------
// Reading git's output
// ---------------------------------------------------------------------------

/// The stashes of lines `l, ls…` are those of `l` (if it reads) followed by
/// those of `ls`: lines are read in order and unreadable ones are skipped.
pub proof fn law_parse_lines_in_order(l: Seq<char>, ls: Seq<Seq<char>>)
    ensures
        crate::git::spec_parse_lines(seq![l] + ls) == (match spec_parse_line(l) {
            Some(s) => seq![s],
            None => seq![],
        }) + crate::git::spec_parse_lines(ls),
    decreases ls.len(),
{
    let first = match spec_parse_line(l) {
        Some(s) => seq![s],
        None => Seq::<crate::git::StashView>::empty(),
    };
    if ls.len() == 0 {
        assert(seq![l] + ls =~= seq![l]);
        assert(seq![l].drop_last() =~= Seq::<Seq<char>>::empty());
        assert(seq![l].last() == l);
        assert(crate::git::spec_parse_lines(Seq::<Seq<char>>::empty()) =~= Seq::<crate::git::StashView>::empty());
        assert(crate::git::spec_parse_lines(seq![l]) =~= first);
        assert(first + crate::git::spec_parse_lines(ls) =~= first);
    } else {
        let all = seq![l] + ls;
        assert(all.drop_last() =~= seq![l] + ls.drop_last());
        assert(all.last() == ls.last());
        law_parse_lines_in_order(l, ls.drop_last());
        match spec_parse_line(ls.last()) {
            Some(s) => {
                assert(first + crate::git::spec_parse_lines(ls) =~= (first
                    + crate::git::spec_parse_lines(ls.drop_last())).push(s));
            },
            None => {
                assert(first + crate::git::spec_parse_lines(ls) =~= first
                    + crate::git::spec_parse_lines(ls.drop_last()));
            },
        }
    }
}

/// A failed `git` run is reported as the command and git's trimmed stderr; a
/// successful one gives its stdout.
pub proof fn law_run_result(args: Seq<Seq<char>>, stdout: Seq<char>, stderr: Seq<char>)
    ensures
        crate::git::spec_run_result(args, true, stdout, stderr) == Ok::<Seq<char>, Seq<char>>(stdout),
        crate::git::spec_run_result(args, false, stdout, stderr) == Err::<Seq<char>, Seq<char>>(
            "git "@ + join(args, " "@) + ": "@ + crate::text::trim(stderr),
        ),
{
}

/// `git stash pop` reports stdout then stderr (conflicts included); a failed
/// pop reports that text trimmed.
pub proof fn law_pop_result(stdout: Seq<char>, stderr: Seq<char>)
    ensures
        crate::git::spec_pop_result(true, stdout, stderr) == Ok::<Seq<char>, Seq<char>>(stdout + stderr),
        crate::git::spec_pop_result(false, stdout, stderr) == Err::<Seq<char>, Seq<char>>(
            crate::text::trim(stdout + stderr),
        ),
{
}

/// After a partial pop the report keeps the pop's own report and adds the
/// re-stash's; a failed re-stash says that the pop already happened.
pub proof fn law_pop_file_result(pop_out: Seq<char>, path: Seq<char>, stdout: Seq<char>, stderr: Seq<char>)
    ensures
        crate::git::spec_pop_file_result(pop_out, path, true, stdout, stderr) == Ok::<Seq<char>, Seq<char>>(
            crate::text::trim_end(pop_out) + "\nre-stashed the rest: "@ + crate::text::trim(stdout + stderr),
        ),
        crate::git::spec_pop_file_result(pop_out, path, false, stdout, stderr) == Err::<Seq<char>, Seq<char>>(
            "popped "@ + path
                + ", but the rest of the stash is now unstashed in your working tree - re-stash it yourself: "@
                + crate::text::trim(stdout + stderr),
        ),
{
}

// ---------------------------------------------------------------------------
// Taking in git's answers
// ---------------------------------------------------------------------------

/// A patch arrives as the diff's lines; a failure empties the diff and shows
/// the message. Nothing else changes.
pub proof fn law_complete_diff(a: AppView, text: Seq<char>, e: Seq<char>)
    requires
        a.pending matches Some(GitCallView::Diff { .. }) || a.pending matches Some(GitCallView::FileDiff { .. }),
    ensures
        a.complete(Ok(text)) == (AppView { diff: lines(text), pending: None, ..a }),
        a.complete(Err(e)) == (AppView { diff: seq![], status: Some(e), pending: None, ..a }),
{
}

/// A stash's file list arrives as the files of the tree, each with its counts,
/// in `--numstat` order; an empty list leaves the view and says so.
pub proof fn law_complete_file_stats(a: AppView, text: Seq<char>)
    requires
        a.pending matches Some(GitCallView::FileStats { .. }),
    ensures
        ({
            let st = spec_file_stats(text);
            let b = a.complete(Ok(text));
            &&& st.len() == 0 ==> b == (AppView { status: Some("no files in this stash"@), pending: None, ..a })
            &&& st.len() > 0 ==> {
                &&& b.files.len() == st.len()
                &&& b.file_stats.len() == st.len()
                &&& forall|j: int| 0 <= j < st.len() ==> b.files[j] == st[j].0 && b.file_stats[j] == (st[j].1, st[j].2)
                &&& b.mode == Mode::Tree
                &&& b.file_i == 0
                &&& b.scroll == 0
                &&& b.diff.len() == 0
                &&& b.status is None
                &&& b.pending is None
                &&& b.stashes == a.stashes
                &&& b.list_i == a.list_i
                &&& !b.should_quit
                    || a.should_quit
            }
        }),
{
}

/// A successful pop ends the browser and reports what was popped, with git's
/// report after it.
pub proof fn law_complete_pop(a: AppView, text: Seq<char>)
    ensures
        a.pending matches Some(GitCallView::Pop { reference }) ==> {
            &&& a.complete(Ok(text)).popped == Some("Popped "@ + reference + "\n"@ + crate::text::trim_end(text))
            &&& a.complete(Ok(text)).should_quit
        },
        a.pending matches Some(GitCallView::PopFile { reference, path, .. }) ==> {
            &&& a.complete(Ok(text)).popped == Some(
                "Popped "@ + path + " from "@ + reference + "\n"@ + crate::text::trim_end(text),
            )
            &&& a.complete(Ok(text)).should_quit
        },
{
}

// ---------------------------------------------------------------------------
// Keys
// ---------------------------------------------------------------------------

pub open spec fn plain(c: char) -> KeyPress {
    KeyPress { key: Key::Char(c), ctrl: false }
}

/// Without a prompt: `q` quits, Enter opens the stash prompt, `p` opens the
/// file prompt in the tree and the file view (not in the list); nothing else
/// changes.
pub proof fn law_plain_keys(a: AppView)
    requires
        a.confirm is None,
    ensures
        a.handle(plain('q')) == (AppView { should_quit: true, ..a }),
        a.handle(KeyPress { key: Key::Enter, ctrl: false }) == (AppView { confirm: Some(Confirm::PopStash), ..a }),
        a.mode != Mode::List ==> a.handle(plain('p')) == (AppView { confirm: Some(Confirm::PopFile), ..a }),
        a.mode == Mode::List ==> a.handle(plain('p')) == a,
{
}

/// Drilling in: `l`/Right in the list asks for the selected stash's files; in
/// the tree it opens the selected file.
pub proof fn law_drill_in(a: AppView, k: KeyPress)
    requires
        a.confirm is None,
        !k.ctrl,
        k.key == Key::Right || k.key == Key::Char('l'),
        a.list_i < a.stashes.len(),
    ensures
        a.mode == Mode::List ==> a.handle(k) == (AppView {
            pending: Some(GitCallView::FileStats { reference: a.stashes[a.list_i as int].reference }),
            ..a
        }),
        a.mode == Mode::Tree && a.file_i < a.files.len() ==> {
            &&& a.handle(k).mode == Mode::FileDiff
            &&& a.handle(k).pending == Some(
                GitCallView::FileDiff {
                    reference: a.stashes[a.list_i as int].reference,
                    path: a.files[a.file_i as int],
                },
            )
            &&& a.handle(k).file_i == a.file_i
            &&& a.handle(k).files == a.files
        },
        a.mode == Mode::FileDiff ==> a.handle(k) == a,
{
}

/// Going back: `h`/Left/Esc leave a file for the tree, the tree for the list
/// (which asks for the selected stash's patch again); Esc in the list quits.
pub proof fn law_go_back(a: AppView, k: KeyPress)
    requires
        a.confirm is None,
        !k.ctrl,
        k.key == Key::Left || k.key == Key::Char('h') || k.key == Key::Esc,
        a.list_i < a.stashes.len(),
    ensures
        a.mode == Mode::FileDiff ==> a.handle(k) == (AppView { mode: Mode::Tree, diff: seq![], scroll: 0, ..a }),
        a.mode == Mode::Tree ==> a.handle(k) == (AppView {
            mode: Mode::List,
            files: seq![],
            file_stats: seq![],
            file_i: 0,
            diff: seq![],
            scroll: 0,
            pending: Some(GitCallView::Diff { reference: a.stashes[a.list_i as int].reference }),
            ..a
        }),
        a.mode == Mode::List && k.key == Key::Esc ==> a.handle(k) == (AppView { should_quit: true, ..a }),
        a.mode == Mode::List && k.key != Key::Esc ==> a.handle(k) == a,
{
}

/// `j`/Down and `k`/Up move the list selection one step, clamped, and ask for
/// the newly selected stash's patch.
pub proof fn law_step_through_list(a: AppView, k: KeyPress)
    requires
        a.confirm is None,
        !k.ctrl,
        a.mode == Mode::List,
        0 < a.stashes.len() < isize::MAX,
        a.list_i < a.stashes.len(),
        k.key == Key::Up || k.key == Key::Char('k') || k.key == Key::Down || k.key == Key::Char('j'),
    ensures
        ({
            let down = k.key == Key::Down || k.key == Key::Char('j');
            let want: int = if down {
                if a.list_i + 1 < a.stashes.len() { a.list_i + 1 } else { a.list_i as int }
            } else {
                if a.list_i > 0 { a.list_i - 1 } else { 0 }
            };
            &&& a.handle(k).list_i == want
            &&& a.handle(k).pending == Some(GitCallView::Diff { reference: a.stashes[want].reference })
            &&& a.handle(k).scroll == 0
            &&& a.handle(k).mode == Mode::List
        }),
{
}

/// `j`/Down and `k`/Up move the file selection one step in the tree, clamped,
/// asking for nothing.
pub proof fn law_step_through_tree(a: AppView, k: KeyPress)
    requires
        a.confirm is None,
        !k.ctrl,
        a.mode == Mode::Tree,
        0 < a.files.len() < isize::MAX,
        a.file_i < a.files.len(),
        k.key == Key::Up || k.key == Key::Char('k') || k.key == Key::Down || k.key == Key::Char('j'),
    ensures
        ({
            let down = k.key == Key::Down || k.key == Key::Char('j');
            let want: int = if down {
                if a.file_i + 1 < a.files.len() { a.file_i + 1 } else { a.file_i as int }
            } else {
                if a.file_i > 0 { a.file_i - 1 } else { 0 }
            };
            a.handle(k) == (AppView { file_i: want as usize, ..a })
        }),
{
}

/// Page keys and Control-d/u scroll ten lines, clamped to the diff.
pub proof fn law_page_keys(a: AppView, k: KeyPress)
    requires
        a.mode != Mode::Tree,
        a.diff.len() <= i32::MAX,
        (a.confirm is None && !k.ctrl && (k.key == Key::PageDown || k.key == Key::PageUp))
            || (k.ctrl && (k.key == Key::Char('d') || k.key == Key::Char('u'))),
    ensures
        ({
            let top = if a.diff.len() == 0 { 0 } else { a.diff.len() - 1 };
            let step = if k.key == Key::PageUp || k.key == Key::Char('u') { -10int } else { 10int };
            a.handle(k) == (AppView { scroll: within(a.scroll + step, 0, top) as u16, ..a })
        }),
{
}

/// In the tree the scroll offset stays within two rows per file.
pub proof fn law_tree_scroll_bound(a: AppView, delta: i32)
    requires
        a.mode == Mode::Tree,
        a.scroll_ok(delta),
        a.files.len() * 2 <= i32::MAX,
    ensures
        a.scroll_by(delta).scroll == within(a.scroll + delta, 0, (a.files.len() * 2) as int) as u16,
{
}

// ---------------------------------------------------------------------------
// Screen
// ---------------------------------------------------------------------------

/// The wheel over the right pane scrolls it three lines.
pub proof fn law_wheel_over_right_pane(a: AppView, m: Mouse, left: Area, right: Area)
    requires
        spec_contains(right, m.column, m.row),
    ensures
        m.kind == MouseKind::ScrollDown ==> a.on_mouse(m, left, right) == a.scroll_by(3i32),
        m.kind == MouseKind::ScrollUp ==> a.on_mouse(m, left, right) == a.scroll_by(-3i32),
{
}

/// The prompt box lies within its area, is no larger than asked, and sits in
/// the middle: the margins on either side differ by at most one cell.
pub proof fn law_centered(area: Area, width: u16, height: u16)
    requires
        crate::ui::centered_ok(area, width, height),
    ensures
        ({
            let r = crate::ui::spec_centered(area, width, height);
            &&& r.width <= width && r.width <= area.width
            &&& r.height <= height && r.height <= area.height
            &&& (r.width == width || r.width == area.width)
            &&& (r.height == height || r.height == area.height)
            &&& area.x <= r.x && r.x + r.width <= area.x + area.width
            &&& area.y <= r.y && r.y + r.height <= area.y + area.height
            &&& 0 <= (area.x + area.width - (r.x + r.width)) - (r.x - area.x) <= 1
            &&& 0 <= (area.y + area.height - (r.y + r.height)) - (r.y - area.y) <= 1
        }),
{
}

/// A cell lies in an area away from the screen's edge exactly when it is
/// within its columns and rows.
pub proof fn law_contains(a: Area, x: u16, y: u16)
    requires
        a.x + a.width <= u16::MAX,
        a.y + a.height <= u16::MAX,
    ensures
        spec_contains(a, x, y) <==> (a.x <= x < a.x + a.width && a.y <= y < a.y + a.height),
{
}

/// Diff lines are coloured by their first characters: `+`/`-` lines are
/// additions/removals unless they are `+++`/`---` file headers, `@@` starts a
/// hunk, `diff `/`index ` are headers, anything else is context.
pub proof fn law_line_kind(s: Seq<char>)
    ensures
        s.len() >= 3 && s[0] == '+' && s[1] == '+' && s[2] == '+' ==> crate::ui::spec_line_kind(s) == crate::ui::DiffLine::Meta,
        s.len() >= 3 && s[0] == '-' && s[1] == '-' && s[2] == '-' ==> crate::ui::spec_line_kind(s) == crate::ui::DiffLine::Meta,
        s.len() >= 1 && s[0] == '+' && !(s.len() >= 3 && s[1] == '+' && s[2] == '+') ==> crate::ui::spec_line_kind(s) == crate::ui::DiffLine::Added,
        s.len() >= 1 && s[0] == '-' && !(s.len() >= 3 && s[1] == '-' && s[2] == '-') ==> crate::ui::spec_line_kind(s) == crate::ui::DiffLine::Removed,
        s.len() >= 2 && s[0] == '@' && s[1] == '@' ==> crate::ui::spec_line_kind(s) == crate::ui::DiffLine::Hunk,
        s.len() == 0 || (s[0] != '+' && s[0] != '-' && s[0] != '@' && s[0] != 'd' && s[0] != 'i') ==> crate::ui::spec_line_kind(s) == crate::ui::DiffLine::Context,
{
    reveal_strlit("+++");
    reveal_strlit("---");
    reveal_strlit("diff ");
    reveal_strlit("index ");
    reveal_strlit("+");
    reveal_strlit("-");
    reveal_strlit("@@");
    if s.len() >= 1 {
        assert(s.take(1)[0] == s[0]);
        if s.len() >= 2 {
            assert(s.take(2)[0] == s[0]);
            assert(s.take(2)[1] == s[1]);
        }
        if s.len() >= 3 {
            assert(s.take(3)[0] == s[0]);
            assert(s.take(3)[1] == s[1]);
            assert(s.take(3)[2] == s[2]);
            if s[0] == '+' && s[1] == '+' && s[2] == '+' {
                assert(s.take(3) =~= "+++"@);
            }
            if s[0] == '-' && s[1] == '-' && s[2] == '-' {
                assert(s.take(3) =~= "---"@);
            }
        }
        if s.len() >= 5 {
            assert(s.take(5)[0] == s[0]);
        }
        if s.len() >= 6 {
            assert(s.take(6)[0] == s[0]);
        }
        if s[0] == '+' || s[0] == '-' {
            assert(s.take(1) =~= seq![s[0]]);
            assert("+++"@.len() == 3 && "+++"@[1] == '+');
            assert(!crate::ui::starts_with(s, "diff "@));
            assert(!crate::ui::starts_with(s, "index "@));
            if s[0] == '+' {
                assert(!crate::ui::starts_with(s, "---"@));
                assert(!crate::ui::starts_with(s, "+++"@) || (s[1] == '+' && s[2] == '+'));
                assert(s.take(1) =~= "+"@);
                assert(crate::ui::starts_with(s, "+"@));
            } else {
                assert(!crate::ui::starts_with(s, "+++"@));
                assert(!crate::ui::starts_with(s, "+"@));
                assert(!crate::ui::starts_with(s, "---"@) || (s[1] == '-' && s[2] == '-'));
                assert(s.take(1) =~= "-"@);
                assert(crate::ui::starts_with(s, "-"@));
            }
        }
        if s.len() >= 2 && s[0] == '@' && s[1] == '@' {
            assert(s.take(2) =~= "@@"@);
        }
    }
}

} // verus!

verus! {

/// The browser opens on the newest stash, in the list, asking for its patch.
pub proof fn law_opens_on_first_stash(stashes: Seq<crate::git::StashView>)
    ensures
        AppView::initial(stashes).list_i == 0,
        AppView::initial(stashes).mode == Mode::List,
        AppView::initial(stashes).confirm is None,
        !AppView::initial(stashes).should_quit,
        stashes.len() > 0 ==> AppView::initial(stashes).pending == Some(
            GitCallView::Diff { reference: stashes[0].reference },
        ),
        stashes.len() == 0 ==> AppView::initial(stashes).pending is None,
{
}

/// A click on a file row of the tree opens that file; a click on a directory
/// header opens nothing. Row `r` of the pane (below its border at `right.y`)
/// shows tree row `r + scroll`.
pub proof fn law_click_opens_row(a: AppView, m: Mouse, left: Area, right: Area)
    requires
        m.kind == MouseKind::LeftDown,
        a.mode == Mode::Tree,
        spec_contains(right, m.column, m.row),
        right.y < u16::MAX,
        m.row > right.y,
        (m.row - right.y - 1) + a.scroll < tree_rows(a.files, a.file_stats).len(),
    ensures
        ({
            let row = tree_rows(a.files, a.file_stats)[(m.row - right.y - 1) + a.scroll];
            &&& row matches TreeRowView::File(i, _) ==> {
                &&& a.on_mouse(m, left, right).file_i == i
                &&& (a.files.len() > 0 ==> a.on_mouse(m, left, right).mode == Mode::FileDiff)
            }
            &&& row is Dir ==> a.on_mouse(m, left, right) == a
        }),
{
}

/// A stash is listed as its reference, two spaces, the branch in brackets
/// when it has one, and the message.
pub proof fn law_stash_label(s: crate::git::StashView)
    ensures
        s.branch.len() == 0 ==> crate::ui::spec_stash_label(s) == s.reference + "  "@ + s.message,
        s.branch.len() > 0 ==> crate::ui::spec_stash_label(s) == s.reference + "  "@ + "["@ + s.branch
            + "]"@ + " "@ + s.message,
{
    reveal_strlit("  ");
    reveal_strlit("  [");
    reveal_strlit("[");
    reveal_strlit("]");
    reveal_strlit(" ");
    reveal_strlit("] ");
    assert("  ["@ =~= "  "@ + "["@);
    assert("] "@ =~= "]"@ + " "@);
    if s.branch.len() > 0 {
        assert(s.reference + "  ["@ + s.branch + "] "@ + s.message =~= s.reference + "  "@ + "["@
            + s.branch + "]"@ + " "@ + s.message);
    }
}

/// The prompt names what `y` would pop: the selected stash, or the selected
/// file of it; without an open prompt there is none.
pub proof fn law_prompt_names_target(a: AppView)
    ensures
        a.confirm is None <==> crate::ui::spec_confirm_message(a) is None,
        a.confirm == Some(Confirm::PopStash) && a.list_i < a.stashes.len() ==> crate::ui::spec_confirm_message(a)
            == Some("Pop "@ + a.stashes[a.list_i as int].reference + "? (y/n)"@),
        a.confirm == Some(Confirm::PopFile) && a.list_i < a.stashes.len() && a.file_i < a.files.len()
            ==> crate::ui::spec_confirm_message(a) == Some(
            "Pop only "@ + a.files[a.file_i as int] + " from "@ + a.stashes[a.list_i as int].reference
                + "? (y/n)"@,
        ),
{
}

/// The footer shows the mode's key help, followed by the status message when
/// there is one.
pub proof fn law_footer_shows_status(a: AppView)
    ensures
        a.status is None ==> crate::ui::spec_footer(a) == crate::ui::spec_keys(a.mode),
        a.status matches Some(st) ==> crate::ui::spec_footer(a) == crate::ui::spec_keys(a.mode) + "  |  "@ + st,
{
}

/// The right pane is titled by the selected stash and what it shows, or by the
/// open file.
pub proof fn law_pane_title(a: AppView)
    ensures
        a.mode == Mode::List && a.list_i < a.stashes.len() ==> crate::ui::spec_pane_title(a)
            == a.stashes[a.list_i as int].reference + " — diff"@,
        a.mode == Mode::Tree && a.list_i < a.stashes.len() ==> crate::ui::spec_pane_title(a)
            == a.stashes[a.list_i as int].reference + " — files"@,
        a.mode == Mode::FileDiff && a.file_i < a.files.len() ==> crate::ui::spec_pane_title(a)
            == a.files[a.file_i as int] + "  (h: back)"@,
{
}

} // verus!

verus! {

/// The stash left after popping one file is labelled by where it came from.
pub proof fn law_restash_message(reference: Seq<char>, path: Seq<char>)
    ensures
        crate::git::spec_restash_message(reference, path) == "rest of "@ + reference + ","@ + " after popping "@ + path,
{
    reveal_strlit(", after popping ");
    reveal_strlit(",");
    reveal_strlit(" after popping ");
    assert(", after popping "@ =~= ","@ + " after popping "@);
    assert("rest of "@ + reference + ", after popping "@ + path =~= "rest of "@ + reference + ","@
        + " after popping "@ + path);
}

/// `--numstat` lines are read in order; empty and unreadable lines are skipped.
pub proof fn law_stat_lines_in_order(l: Seq<char>, ls: Seq<Seq<char>>)
    ensures
        crate::git::spec_stat_lines(seq![l] + ls) == (if l.len() == 0 {
            seq![]
        } else {
            match crate::git::spec_stat_line(l) {
                Some(e) => seq![e],
                None => seq![],
            }
        }) + crate::git::spec_stat_lines(ls),
    decreases ls.len(),
{
    let first = if l.len() == 0 {
        Seq::<(Seq<char>, u32, u32)>::empty()
    } else {
        match crate::git::spec_stat_line(l) {
            Some(e) => seq![e],
            None => Seq::<(Seq<char>, u32, u32)>::empty(),
        }
    };
    if ls.len() == 0 {
        assert(seq![l] + ls =~= seq![l]);
        assert(seq![l].drop_last() =~= Seq::<Seq<char>>::empty());
        assert(seq![l].last() == l);
        assert(crate::git::spec_stat_lines(Seq::<Seq<char>>::empty()) =~= Seq::<(Seq<char>, u32, u32)>::empty());
        assert(crate::git::spec_stat_lines(seq![l]) =~= first);
        assert(first + crate::git::spec_stat_lines(ls) =~= first);
    } else {
        let all = seq![l] + ls;
        assert(all.drop_last() =~= seq![l] + ls.drop_last());
        assert(all.last() == ls.last());
        law_stat_lines_in_order(l, ls.drop_last());
        if ls.last().len() == 0 {
            assert(first + crate::git::spec_stat_lines(ls) =~= first + crate::git::spec_stat_lines(ls.drop_last()));
        } else {
            match crate::git::spec_stat_line(ls.last()) {
                Some(e) => {
                    assert(first + crate::git::spec_stat_lines(ls) =~= (first
                        + crate::git::spec_stat_lines(ls.drop_last())).push(e));
                },
                None => {
                    assert(first + crate::git::spec_stat_lines(ls) =~= first
                        + crate::git::spec_stat_lines(ls.drop_last()));
                },
            }
        }
    }
}

} // verus!
