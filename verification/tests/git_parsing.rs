use gitpeek::git::{
    diff, file_diff, file_stats, list, others, parse_file_stats, parse_line, parse_list, pop,
    pop_file, pop_file_result, pop_result, run_result, GitOutput,
};
use gitpeek::app::text_lines;
use gitpeek::text::{join_strings, trim_end_str, trim_str};

fn strings(v: &[&str]) -> Vec<String> {
    v.iter().map(|s| s.to_string()).collect()
}

fn output(success: bool, stdout: &str, stderr: &str) -> GitOutput {
    GitOutput { success, stdout: stdout.to_string(), stderr: stderr.to_string() }
}

#[test]
fn parses_stash_list_forms() {
    let wip = parse_line("stash@{0}: WIP on main: 1a2b3c4 tidy up").unwrap();
    assert_eq!(wip.reference, "stash@{0}");
    assert_eq!(wip.branch, "main");
    assert_eq!(wip.message, "1a2b3c4 tidy up");

    let on = parse_line("stash@{1}: On feat/x: my message").unwrap();
    assert_eq!(on.reference, "stash@{1}");
    assert_eq!(on.branch, "feat/x");
    assert_eq!(on.message, "my message");

    // branch names may contain ": " - first split wins, remainder is the message
    let odd = parse_line("stash@{2}: something unexpected").unwrap();
    assert_eq!(odd.reference, "stash@{2}");
    assert_eq!(odd.branch, "");
    assert_eq!(odd.message, "something unexpected");

    // message may itself contain ": " - only the first split separates the reference
    let colons = parse_line("stash@{3}: On main: fix: the thing").unwrap();
    assert_eq!(colons.branch, "main");
    assert_eq!(colons.message, "fix: the thing");

    assert_eq!(parse_line("garbage"), None);
    assert_eq!(parse_line(""), None);
}

#[test]
fn parse_line_reads_back_the_line() {
    for line in [
        "stash@{0}: WIP on main: 1a2b3c4 tidy up",
        "stash@{1}: On feat/x: my message",
        "stash@{2}: something unexpected",
        "stash@{3}: WIP on : empty branch",
    ] {
        let s = parse_line(line).unwrap();
        assert!(!s.reference.contains(": "));
        let rebuilt_plain = format!("{}: {}", s.reference, s.message);
        let rebuilt_wip = format!("{}: WIP on {}: {}", s.reference, s.branch, s.message);
        let rebuilt_on = format!("{}: On {}: {}", s.reference, s.branch, s.message);
        assert!(
            (s.branch.is_empty() && rebuilt_plain == line) || rebuilt_wip == line || rebuilt_on == line,
            "{line}"
        );
    }
    let empty_branch = parse_line("stash@{3}: WIP on : empty branch").unwrap();
    assert_eq!(empty_branch.branch, "");
    assert_eq!(empty_branch.message, "empty branch");
    // "WIP on" without a second separator: the whole tail is the message
    let no_sep = parse_line("stash@{4}: WIP on main").unwrap();
    assert_eq!(no_sep.branch, "");
    assert_eq!(no_sep.message, "WIP on main");
}

#[test]
fn parse_list_skips_unreadable_lines() {
    let out = "stash@{0}: On main: second wip\r\ngarbage\n\nstash@{1}: On main: first wip\n";
    let stashes = parse_list(out);
    assert_eq!(stashes.len(), 2, "newest first");
    assert_eq!(stashes[0].reference, "stash@{0}");
    assert_eq!(stashes[0].branch, "main");
    assert_eq!(stashes[0].message, "second wip");
    assert_eq!(stashes[1].reference, "stash@{1}");
    assert_eq!(stashes[1].message, "first wip");
    assert!(parse_list("").is_empty());
}

#[test]
fn lines_follow_str_lines() {
    for text in ["a\r\nb\n", "", "\n", "a\r", "x\n\ny", "one\ntwo", "\r\n\r\n", "tail\n\n"] {
        let expected: Vec<String> = text.lines().map(str::to_string).collect();
        assert_eq!(text_lines(text), expected, "{text:?}");
    }
    // no line keeps a line feed
    assert!(text_lines("a\nb\r\nc").iter().all(|l| !l.contains('\n')));
}

#[test]
fn numstat_counts_and_binary_files() {
    let out = "1\t2\ta.txt\n-\t-\tbin.png\n\nno tabs here\n3\t4\tdir/with\ttab\n+5\t007\tp\n4294967296\t1\tq\n";
    let stats = parse_file_stats(out);
    assert_eq!(
        stats,
        vec![
            ("a.txt".to_string(), 1, 2),
            ("bin.png".to_string(), 0, 0),
            ("dir/with\ttab".to_string(), 3, 4),
            ("p".to_string(), 5, 7),
            ("q".to_string(), 0, 1),
        ]
    );
    assert_eq!(parse_file_stats("10\t0\tb.txt"), vec![("b.txt".to_string(), 10, 0)]);
    assert_eq!(parse_file_stats("4294967295\t+\tc"), vec![("c".to_string(), u32::MAX, 0)]);
}

#[test]
fn command_lines() {
    assert_eq!(list(), strings(&["stash", "list"]));
    assert_eq!(diff("stash@{0}"), strings(&["stash", "show", "-p", "stash@{0}"]));
    assert_eq!(file_stats("stash@{1}"), strings(&["stash", "show", "--numstat", "stash@{1}"]));
    assert_eq!(
        file_diff("stash@{1}", "b.txt"),
        strings(&["diff", "stash@{1}^1", "stash@{1}", "--", "b.txt"])
    );
    assert_eq!(pop("stash@{0}"), strings(&["stash", "pop", "stash@{0}"]));
}

#[test]
fn pop_file_restashes_only_the_others() {
    let all = strings(&["a.txt", "b.txt", "c.txt"]);
    assert_eq!(others(&all, "b.txt"), strings(&["a.txt", "c.txt"]));
    assert_eq!(
        pop_file("stash@{0}", "b.txt", &all).unwrap(),
        strings(&[
            "stash",
            "push",
            "-u",
            "-m",
            "rest of stash@{0}, after popping b.txt",
            "--",
            "a.txt",
            "c.txt"
        ])
    );
    // nothing else in the stash: no second command
    assert_eq!(pop_file("stash@{0}", "b.txt", &strings(&["b.txt"])), None);
    assert_eq!(pop_file("stash@{0}", "b.txt", &strings(&["b.txt", "b.txt"])), None);
}

#[test]
fn run_result_names_the_command() {
    let args = diff("stash@{99}");
    assert_eq!(run_result(&args, output(true, "patch\n", "warn")), Ok("patch\n".to_string()));
    assert_eq!(
        run_result(&args, output(false, "", "  fatal: bad revision\n")),
        Err("git stash show -p stash@{99}: fatal: bad revision".to_string())
    );
}

#[test]
fn pop_reports_both_streams() {
    assert_eq!(pop_result(output(true, "out\n", "err\n")), Ok("out\nerr\n".to_string()));
    assert_eq!(pop_result(output(false, "\nCONFLICT\n", " x \n")), Err("CONFLICT\n x".to_string()));
}

#[test]
fn pop_file_reports_the_restash() {
    assert_eq!(
        pop_file_result("Dropped stash\n\n", "b.txt", output(true, "Saved\n", "")),
        Ok("Dropped stash\nre-stashed the rest: Saved".to_string())
    );
    assert_eq!(
        pop_file_result("Dropped", "b.txt", output(false, "", "error: no\n")),
        Err("popped b.txt, but the rest of the stash is now unstashed in your working tree - re-stash it yourself: error: no".to_string())
    );
}

#[test]
fn trimming_and_joining() {
    assert_eq!(trim_str("\u{3000}\t a b \u{85}\n"), "a b");
    assert_eq!(trim_str("   "), "");
    assert_eq!(trim_end_str("  a \n"), "  a");
    assert_eq!(join_strings(&strings(&["a", "b", "c"]), ", "), "a, b, c");
    assert_eq!(join_strings(&strings(&[]), ", "), "");
}
