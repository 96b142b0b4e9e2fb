//! The `git` side of the browser: which `git` command lines it runs, and how
//! their output is read. Running the commands is left to the caller, which
//! hands the output back as plain values.
use vstd::prelude::*;
use crate::text::{
    chars_of, concat, find_char, index_of, is_first_char, join, join_strings, lemma_views_push, lines,
    lines_chars, parse_u32_chars, parse_u32_or_zero, slice_of, split_once, split_once_chars,
    string_of, strip_prefix, strip_prefix_chars, trim, trim_end, trim_end_str, trim_str, views,
};

verus! {

/// One entry of `git stash list`.
#[derive(Debug, PartialEq, Eq)]
pub struct Stash {
    pub reference: String,
    pub branch: String,
    pub message: String,
}

/// A stash entry as character sequences.
pub struct StashView {
    pub reference: Seq<char>,
    pub branch: Seq<char>,
    pub message: Seq<char>,
}

impl View for Stash {
    type V = StashView;

    open spec fn view(&self) -> StashView {
        StashView { reference: self.reference@, branch: self.branch@, message: self.message@ }
    }
}

/// What a finished `git` process left behind.
pub struct GitOutput {
    pub success: bool,
    pub stdout: String,
    pub stderr: String,
}

pub open spec fn stash_views(v: Seq<Stash>) -> Seq<StashView> {
    v.map_values(|s: Stash| s@)
}

/// Reading of one `git stash list` line: the reference up to the first `": "`;
/// then, after `"WIP on "` or `"On "`, the branch up to the next `": "` and the
/// message after it; any other tail is the message, with an empty branch.
pub open spec fn spec_parse_line(line: Seq<char>) -> Option<StashView> {
    match split_once(line, ": "@) {
        None => None,
        Some((reference, tail)) => {
            let rest = match strip_prefix(tail, "WIP on "@) {
                Some(r) => Some(r),
                None => strip_prefix(tail, "On "@),
            };
            let split = match rest {
                Some(r) => split_once(r, ": "@),
                None => None,
            };
            match split {
                Some((branch, message)) => Some(
                    StashView { reference, branch, message },
                ),
                None => Some(StashView { reference, branch: seq![], message: tail }),
            }
        },
    }
}

/// The stashes read from the lines of `git stash list`, skipping unreadable lines.
pub open spec fn spec_parse_lines(ls: Seq<Seq<char>>) -> Seq<StashView>
    decreases ls.len(),
{
    if ls.len() == 0 {
        seq![]
    } else {
        let before = spec_parse_lines(ls.drop_last());
        match spec_parse_line(ls.last()) {
            Some(s) => before.push(s),
            None => before,
        }
    }
}

/// `--numstat` line: `<added>\t<deleted>\t<path>`; counts that do not parse
/// (a binary file's `-`) read as 0. Lines with fewer than two tabs are skipped.
pub open spec fn spec_stat_line(l: Seq<char>) -> Option<(Seq<char>, u32, u32)> {
    match index_of(l, '\t') {
        None => None,
        Some(i) => {
            let r = l.skip(i + 1);
            match index_of(r, '\t') {
                None => None,
                Some(j) => Some(
                    (r.skip(j + 1), parse_u32_or_zero(l.take(i)), parse_u32_or_zero(r.take(j))),
                ),
            }
        },
    }
}

pub open spec fn spec_stat_lines(ls: Seq<Seq<char>>) -> Seq<(Seq<char>, u32, u32)>
    decreases ls.len(),
{
    if ls.len() == 0 {
        seq![]
    } else {
        let before = spec_stat_lines(ls.drop_last());
        if ls.last().len() == 0 {
            before
        } else {
            match spec_stat_line(ls.last()) {
                Some(e) => before.push(e),
                None => before,
            }
        }
    }
}

/// `(path, added, deleted)` for each file of `git stash show --numstat` output.
pub open spec fn spec_file_stats(output: Seq<char>) -> Seq<(Seq<char>, u32, u32)> {
    spec_stat_lines(lines(output))
}

pub open spec fn stat_views(v: Seq<(String, u32, u32)>) -> Seq<(Seq<char>, u32, u32)> {
    v.map_values(|e: (String, u32, u32)| (e.0@, e.1, e.2))
}

/// The files of the stash other than `path`, in order.
pub open spec fn spec_others(all_files: Seq<Seq<char>>, path: Seq<char>) -> Seq<Seq<char>>
    decreases all_files.len(),
{
    if all_files.len() == 0 {
        seq![]
    } else {
        let before = spec_others(all_files.drop_last(), path);
        if all_files.last() == path {
            before
        } else {
            before.push(all_files.last())
        }
    }
}

/// The message under which the rest of a partly popped stash is stashed again.
pub open spec fn spec_restash_message(reference: Seq<char>, path: Seq<char>) -> Seq<char> {
    "rest of "@ + reference + ", after popping "@ + path
}

/// Error text of a failed `git` run.
pub open spec fn spec_run_error(args: Seq<Seq<char>>, stderr: Seq<char>) -> Seq<char> {
    "git "@ + join(args, " "@) + ": "@ + trim(stderr)
}

/// What `run` makes of a finished `git` process.
pub open spec fn spec_run_result(args: Seq<Seq<char>>, success: bool, stdout: Seq<char>, stderr: Seq<char>) -> Result<Seq<char>, Seq<char>> {
    if success {
        Ok(stdout)
    } else {
        Err(spec_run_error(args, stderr))
    }
}

/// What `git stash pop` reports: stdout then stderr, so that conflicts show.
pub open spec fn spec_pop_result(success: bool, stdout: Seq<char>, stderr: Seq<char>) -> Result<Seq<char>, Seq<char>> {
    if success {
        Ok(stdout + stderr)
    } else {
        Err(trim(stdout + stderr))
    }
}

/// The report of a partial pop, given the pop's own report and the re-stash run.
pub open spec fn spec_pop_file_result(pop_out: Seq<char>, path: Seq<char>, success: bool, stdout: Seq<char>, stderr: Seq<char>) -> Result<Seq<char>, Seq<char>> {
    if success {
        Ok(trim_end(pop_out) + "\nre-stashed the rest: "@ + trim(stdout + stderr))
    } else {
        Err("popped "@ + path
            + ", but the rest of the stash is now unstashed in your working tree - re-stash it yourself: "@
            + trim(stdout + stderr))
    }
}

pub open spec fn result_views(r: Result<String, String>) -> Result<Seq<char>, Seq<char>> {
    match r {
        Ok(s) => Ok(s@),
        Err(e) => Err(e@),
    }
}

/// An owned copy of `s`.
fn lit(s: &str) -> (r: String)
    ensures
        r@ == s@,
{
    String::from_str(s)
}

/// Reads one `git stash list` line. Tolerant: unrecognised tails land in `message`.
pub fn parse_line(line: &str) -> (r: Option<Stash>)
    ensures
        match r {
            Some(s) => spec_parse_line(line@) == Some(s@),
            None => spec_parse_line(line@) is None,
        },
{
    parse_line_chars(&chars_of(line))
}

fn parse_line_chars(cs: &Vec<char>) -> (r: Option<Stash>)
    ensures
        match r {
            Some(s) => spec_parse_line(cs@) == Some(s@),
            None => spec_parse_line(cs@) is None,
        },
{
    let sep = chars_of(": ");
    let wip = chars_of("WIP on ");
    let on = chars_of("On ");
    let (reference, tail) = match split_once_chars(cs, &sep) {
        Some(p) => p,
        None => return None,
    };
    let rest = match strip_prefix_chars(&tail, &wip) {
        Some(r) => Some(r),
        None => strip_prefix_chars(&tail, &on),
    };
    let split = match rest {
        Some(r) => split_once_chars(&r, &sep),
        None => None,
    };
    let reference_text = string_of(&reference, 0, reference.len());
    assert(reference_text@ =~= reference@);
    let reference = reference_text;
    match split {
        Some((b, m)) => {
            let branch = string_of(&b, 0, b.len());
            let message = string_of(&m, 0, m.len());
            assert(branch@ =~= b@);
            assert(message@ =~= m@);
            let s = Stash { reference, branch, message };
            Some(s)
        },
        None => {
            let message = string_of(&tail, 0, tail.len());
            assert(message@ =~= tail@);
            Some(Stash { reference, branch: String::new(), message })
        },
    }
}

/// The `git` command line that lists the stashes.
pub fn list() -> (args: Vec<String>)
    ensures
        views(args@) == seq!["stash"@, "list"@],
{
    let args = vec![lit("stash"), lit("list")];
    assert(views(args@) =~= seq!["stash"@, "list"@]);
    args
}

/// The stashes in the output of `git stash list`, newest first as git prints them.
pub fn parse_list(output: &str) -> (r: Vec<Stash>)
    ensures
        stash_views(r@) == spec_parse_lines(lines(output@)),
{
    let ls = lines_chars(&chars_of(output));
    let ghost lv = ls@.map_values(|l: Vec<char>| l@);
    let mut out: Vec<Stash> = Vec::new();
    let mut i: usize = 0;
    while i < ls.len()
        invariant
            i <= ls.len(),
            lv == ls@.map_values(|l: Vec<char>| l@),
            stash_views(out@) == spec_parse_lines(lv.take(i as int)),
        decreases ls.len() - i,
    {
        assert(lv.take(i + 1).drop_last() =~= lv.take(i as int));
        assert(lv.take(i + 1).last() == ls@[i as int]@);
        match parse_line_chars(&ls[i]) {
            Some(s) => {
                assert(stash_views(out@.push(s)) =~= stash_views(out@).push(s@));
                out.push(s);
            },
            None => {},
        }
        i += 1;
    }
    assert(lv.take(ls@.len() as int) =~= lv);
    out
}

/// The `git` command line that prints a stash's patch.
pub fn diff(reference: &str) -> (args: Vec<String>)
    ensures
        views(args@) == seq!["stash"@, "show"@, "-p"@, reference@],
{
    let args = vec![lit("stash"), lit("show"), lit("-p"), lit(reference)];
    assert(views(args@) =~= seq!["stash"@, "show"@, "-p"@, reference@]);
    args
}

/// The `git` command line that lists a stash's files with their line counts.
pub fn file_stats(reference: &str) -> (args: Vec<String>)
    ensures
        views(args@) == seq!["stash"@, "show"@, "--numstat"@, reference@],
{
    let args = vec![lit("stash"), lit("show"), lit("--numstat"), lit(reference)];
    assert(views(args@) =~= seq!["stash"@, "show"@, "--numstat"@, reference@]);
    args
}

fn stat_line(l: &Vec<char>) -> (r: Option<(String, u32, u32)>)
    ensures
        match r {
            Some(e) => spec_stat_line(l@) == Some((e.0@, e.1, e.2)),
            None => spec_stat_line(l@) is None,
        },
{
    let i = match find_char(l, '\t') {
        Some(i) => i,
        None => return None,
    };
    assert(is_first_char(l@, '\t', i as int));
    assert(i < l.len());
    let first = slice_of(l, 0, i);
    let r = slice_of(l, i + 1, l.len());
    assert(r@ =~= l@.skip(i + 1));
    assert(first@ =~= l@.take(i as int));
    let j = match find_char(&r, '\t') {
        Some(j) => j,
        None => return None,
    };
    let second = slice_of(&r, 0, j);
    assert(second@ =~= r@.take(j as int));
    let path = string_of(&r, j + 1, r.len());
    assert(path@ =~= r@.skip(j + 1));
    let added = match parse_u32_chars(&first) {
        Some(v) => v,
        None => 0,
    };
    let deleted = match parse_u32_chars(&second) {
        Some(v) => v,
        None => 0,
    };
    Some((path, added, deleted))
}

/// `(path, added, deleted)` for each file in `git stash show --numstat` output;
/// binary files, shown as `-\t-\t<path>`, count 0/0.
pub fn parse_file_stats(output: &str) -> (r: Vec<(String, u32, u32)>)
    ensures
        stat_views(r@) == spec_file_stats(output@),
{
    let ls = lines_chars(&chars_of(output));
    let ghost lv = ls@.map_values(|l: Vec<char>| l@);
    let mut out: Vec<(String, u32, u32)> = Vec::new();
    let mut i: usize = 0;
    while i < ls.len()
        invariant
            i <= ls.len(),
            lv == ls@.map_values(|l: Vec<char>| l@),
            stat_views(out@) == spec_stat_lines(lv.take(i as int)),
        decreases ls.len() - i,
    {
        assert(lv.take(i + 1).drop_last() =~= lv.take(i as int));
        assert(lv.take(i + 1).last() == ls@[i as int]@);
        if ls[i].len() > 0 {
            match stat_line(&ls[i]) {
                Some(e) => {
                    assert(stat_views(out@.push(e)) =~= stat_views(out@).push((e.0@, e.1, e.2)));
                    out.push(e);
                },
                None => {},
            }
        }
        i += 1;
    }
    assert(lv.take(ls@.len() as int) =~= lv);
    out
}

/// The `git` command line that prints one file's change in a stash: the stash
/// commit against its first parent, since `git stash show` takes no pathspec.
pub fn file_diff(reference: &str, path: &str) -> (args: Vec<String>)
    ensures
        views(args@) == seq!["diff"@, reference@ + "^1"@, reference@, "--"@, path@],
{
    let args = vec![lit("diff"), concat(reference, "^1"), lit(reference), lit("--"), lit(path)];
    assert(views(args@) =~= seq!["diff"@, reference@ + "^1"@, reference@, "--"@, path@]);
    args
}

/// The `git` command line that pops a stash.
pub fn pop(reference: &str) -> (args: Vec<String>)
    ensures
        views(args@) == seq!["stash"@, "pop"@, reference@],
{
    let args = vec![lit("stash"), lit("pop"), lit(reference)];
    assert(views(args@) =~= seq!["stash"@, "pop"@, reference@]);
    args
}

/// The files of `all_files` other than `path`, in order.
pub fn others(all_files: &Vec<String>, path: &str) -> (r: Vec<String>)
    ensures
        views(r@) == spec_others(views(all_files@), path@),
{
    let ghost av = views(all_files@);
    let mut out: Vec<String> = Vec::new();
    let mut i: usize = 0;
    while i < all_files.len()
        invariant
            i <= all_files.len(),
            av == views(all_files@),
            views(out@) == spec_others(av.take(i as int), path@),
        decreases all_files.len() - i,
    {
        assert(av.take(i + 1).drop_last() =~= av.take(i as int));
        assert(av.take(i + 1).last() == all_files@[i as int]@);
        let same = str_eq(all_files[i].as_str(), path);
        if !same {
            let f = all_files[i].clone();
            proof {
                lemma_views_push(out@, f);
            }
            out.push(f);
        }
        i += 1;
    }
    assert(av.take(all_files@.len() as int) =~= av);
    out
}

/// Whether two texts are equal.
pub fn str_eq(a: &str, b: &str) -> (r: bool)
    ensures
        r == (a@ == b@),
{
    let x = chars_of(a);
    let y = chars_of(b);
    if x.len() != y.len() {
        return false;
    }
    let mut i: usize = 0;
    while i < x.len()
        invariant
            x@ == a@,
            y@ == b@,
            x.len() == y.len(),
            i <= x.len(),
            forall|k: int| 0 <= k < i ==> x@[k] == y@[k],
        decreases x.len() - i,
    {
        if x[i] != y[i] {
            assert(x@[i as int] != y@[i as int]);
            return false;
        }
        i += 1;
    }
    assert(x@ =~= y@);
    true
}

/// Git has no partial pop: after popping the whole stash, every other file of
/// it is stashed again under a new entry. This is that second command line, or
/// `None` when the stash held nothing else.
pub fn pop_file(reference: &str, path: &str, all_files: &Vec<String>) -> (args: Option<Vec<String>>)
    ensures
        match args {
            None => spec_others(views(all_files@), path@).len() == 0,
            Some(a) => {
                &&& spec_others(views(all_files@), path@).len() > 0
                &&& views(a@) == seq!["stash"@, "push"@, "-u"@, "-m"@, spec_restash_message(reference@, path@), "--"@]
                    + spec_others(views(all_files@), path@)
            },
        },
{
    let rest = others(all_files, path);
    if rest.len() == 0 {
        return None;
    }
    let mut msg = concat("rest of ", reference);
    msg.append(", after popping ");
    msg.append(path);
    let mut args = vec![lit("stash"), lit("push"), lit("-u"), lit("-m"), msg, lit("--")];
    let ghost head = seq!["stash"@, "push"@, "-u"@, "-m"@, spec_restash_message(reference@, path@), "--"@];
    assert(views(args@) =~= head);
    let mut i: usize = 0;
    while i < rest.len()
        invariant
            i <= rest.len(),
            views(args@) == head + views(rest@).take(i as int),
        decreases rest.len() - i,
    {
        let f = rest[i].clone();
        proof {
            lemma_views_push(args@, f);
            assert(views(rest@).take(i + 1) =~= views(rest@).take(i as int).push(f@));
            assert(head + views(rest@).take(i + 1) =~= (head + views(rest@).take(i as int)).push(f@));
        }
        args.push(f);
        i += 1;
    }
    assert(views(rest@).take(rest@.len() as int) =~= views(rest@));
    Some(args)
}

/// The outcome of a `git` run: its stdout, or an error naming the command and
/// quoting git's trimmed stderr.
pub fn run_result(args: &Vec<String>, out: GitOutput) -> (r: Result<String, String>)
    ensures
        result_views(r) == spec_run_result(views(args@), out.success, out.stdout@, out.stderr@),
{
    if out.success {
        Ok(out.stdout)
    } else {
        let mut e = lit("git ");
        let joined = join_strings(args, " ");
        e.append(joined.as_str());
        e.append(": ");
        let t = trim_str(out.stderr.as_str());
        e.append(t.as_str());
        Err(e)
    }
}

/// The outcome of `git stash pop`: stdout then stderr, so that the caller can
/// show conflicts; on failure that text, trimmed, is the error.
pub fn pop_result(out: GitOutput) -> (r: Result<String, String>)
    ensures
        result_views(r) == spec_pop_result(out.success, out.stdout@, out.stderr@),
{
    let text = concat(out.stdout.as_str(), out.stderr.as_str());
    if out.success {
        Ok(text)
    } else {
        Err(trim_str(text.as_str()))
    }
}

/// The outcome of a partial pop, given the pop's report and the re-stash run.
/// A failed re-stash is reported as such: the pop itself already happened.
pub fn pop_file_result(pop_out: &str, path: &str, out: GitOutput) -> (r: Result<String, String>)
    ensures
        result_views(r) == spec_pop_file_result(pop_out@, path@, out.success, out.stdout@, out.stderr@),
{
    let text = concat(out.stdout.as_str(), out.stderr.as_str());
    let t = trim_str(text.as_str());
    if out.success {
        let mut r = trim_end_str(pop_out);
        r.append("\nre-stashed the rest: ");
        r.append(t.as_str());
        Ok(r)
    } else {
        let mut e = concat("popped ", path);
        e.append(", but the rest of the stash is now unstashed in your working tree - re-stash it yourself: ");
        e.append(t.as_str());
        Err(e)
    }
}

} // verus!
