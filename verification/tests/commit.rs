use changelog::commit;
use changelog::commit::{parse_line, parse_number, parse_subject, Commit, CommitList};

fn strings(lines: &[&str]) -> Vec<String> {
    lines.iter().map(|l| l.to_string()).collect()
}

fn sample_message() -> Vec<&'static str> {
    vec![
        "Demonstrate tagging conventions for commit messages (#4)",
        "",
        "Lines that carry no tag are left out of the change log, so a commit",
        "message can say whatever it has to say to the reader of the history.",
        "",
        "- feature: Lines are tagged with a category keyword",
        "- feature: A tagged line can be continued",
        "  on the lines that follow it",
        "- note: Keywords are matched without regard to case",
        "- note: Untagged commits are ignored",
        "- break(api): The scope of a change stands in parentheses",
    ]
}

fn fake_commit() -> Commit {
    let mut lines = vec![
        "2e51cdb3ef163acd31ad0ae9d1b861d544f8162b",
        "aaaaaa a a'aaaaa",
        "Sun, 22 Oct 2017 17:26:56 -0400",
    ];
    lines.extend(sample_message());
    commit::parse(&strings(&lines), "%Y-%m-%d %H:%M")
}

#[test]
fn commit_fetch() {
    let revision = "2c5dda2e5ec6d0ad7abdcd20661bf2cb846ee5f2";
    let head = Commit::from_lines(strings(&[
        revision,
        "aaaaaa a a'aaaaa",
        "Sun, 22 Oct 2017 17:26:56 -0400",
        "Release 0.2.0",
    ]));
    let mut list = CommitList::new(&strings(&["2c5dda2e^..2c5dda2e"]), strings(&[revision]));
    assert_eq!(list.to_string(), "2c5dda2e^..2c5dda2e (1 commits)");
    let also_head = list.next().unwrap();
    assert_eq!(head.sha, also_head);
    assert!(head.to_string().starts_with("2c5dda2e"));
    assert_eq!(list.len(), 0);
    assert_eq!(list.next(), None);
}

#[test]
fn negative() {
    assert!(Commit::default().summary.is_empty());
    let mut list = CommitList::new(&strings(&["bad-range"]), Vec::new());
    assert_eq!(list.len(), 0);
    assert_eq!(list.next(), None);
    assert_eq!(list.to_string(), "bad-range (0 commits)");
}

#[test]
fn commit_lines() {
    let mut lines = vec![
        "2c5dda2e5ec6d0ad7abdcd20661bf2cb846ee5f2".to_string(),
        "aaaaaa a a'aaaaa".to_string(),
        "Sun, 22 Oct 2017 17:26:56 -0400".to_string(),
        "Seventeen lines".to_string(),
    ];
    for i in 0..17 {
        lines.push(format!("line {}", i));
    }
    let reference = Commit::from_lines(lines);
    assert_eq!(reference.lines().len(), 17);
    let mut message = reference.into_iter();
    let mut count = 0;
    while message.next().is_some() {
        count += 1;
    }
    assert_eq!(count, 17);
}

#[test]
fn commit_parse_summary() {
    // most common - simple PR merge
    let message = "foo bar (#123)";
    assert_eq!(parse_subject(message), "foo bar");
    assert_eq!(parse_number(message), Some(123));

    // not a PR merge
    let message = "foo bar ()()";
    assert_eq!(parse_subject(message), message);
    assert_eq!(parse_number(message), None);

    // cherry-picked multi-PR commits
    let message = "foo bar #123 (#101)(#103)";
    assert_eq!(parse_subject(message), "foo bar #123");
    assert_eq!(parse_number(message), Some(103));
}

#[test]
fn commit_commit_parse_summary() {
    // most common - simple PR merge
    let message = "foo bar (#123)";
    assert_eq!(parse_subject(message), "foo bar");
    assert_eq!(parse_number(message), Some(123));

    // not a PR merge
    let message = "foo bar ()()";
    assert_eq!(parse_subject(message), message);
    assert_eq!(parse_number(message), None);

    // cherry-picked multi-PR commits
    let message = "foo bar #123 (#101)(#103)";
    assert_eq!(parse_subject(message), "foo bar #123");
    assert_eq!(parse_number(message), Some(103));
}

#[test]
fn tests_commit_parse_summary() {
    // most common - simple PR merge
    let message = "foo bar (#123)";
    assert_eq!(parse_subject(message), "foo bar");
    assert_eq!(parse_number(message), Some(123));

    // not a PR merge
    let message = "foo bar ()()";
    assert_eq!(parse_subject(message), message);
    assert_eq!(parse_number(message), None);

    // cherry-picked multi-PR commits
    let message = "foo bar #123 (#101)(#103)";
    assert_eq!(parse_subject(message), "foo bar #123");
    assert_eq!(parse_number(message), Some(103));
}

#[test]
fn commit_commit_parse_line() {
    let line = parse_line("- break(shell): foo bar");
    assert_eq!(Some(String::from("shell")), line.scope);
    assert_eq!(Some(String::from("break")), line.category);
    assert_eq!(Some(String::from(" foo bar")), line.text);

    let line = parse_line("-BREAK ( Shell ): foo bar");
    assert_eq!(Some(String::from("shell")), line.scope);
    assert_eq!(Some(String::from("break")), line.category);
    assert_eq!(Some(String::from(" foo bar")), line.text);

    let line = parse_line("- break(shell):");
    assert_eq!(Some(String::from("shell")), line.scope);
    assert_eq!(Some(String::from("break")), line.category);
    assert_eq!(None, line.text);

    let line = parse_line("- break ( SHELL ):");
    assert_eq!(Some(String::from("shell")), line.scope);
    assert_eq!(Some(String::from("break")), line.category);
    assert_eq!(None, line.text);

    let line = parse_line("-fix:");
    assert_eq!(None, line.scope);
    assert_eq!(Some(String::from("fix")), line.category);
    assert_eq!(None, line.text);

    let line = parse_line("- fix: foo bar");
    assert_eq!(None, line.scope);
    assert_eq!(Some(String::from("fix")), line.category);
    assert_eq!(Some(String::from(" foo bar")), line.text);

    let line = parse_line("- FIX  : foo bar");
    assert_eq!(None, line.scope);
    assert_eq!(Some(String::from("fix")), line.category);
    assert_eq!(Some(String::from(" foo bar")), line.text);

    let line = parse_line("- foo bar");
    assert_eq!(None, line.scope);
    assert_eq!(None, line.category);
    assert_eq!(Some(String::from(" foo bar")), line.text);

    let line = parse_line("foo bar");
    assert_eq!(None, line.scope);
    assert_eq!(None, line.category);
    assert_eq!(Some(String::from("foo bar")), line.text);

    let line = parse_line("");
    assert_eq!(None, line.text);
    assert_eq!(None, line.scope);
    assert_eq!(None, line.category);
}

#[test]
fn commit_parse_line() {
    let line = parse_line("-fix: foo bar");
    assert_eq!(None, line.scope);
    assert_eq!(Some(String::from("fix")), line.category);
    assert_eq!(Some(String::from(" foo bar")), line.text);

    let line = parse_line("-breaK(SHELL): foo bar");
    assert_eq!(Some(String::from("shell")), line.scope);
    assert_eq!(Some(String::from("break")), line.category);
    assert_eq!(Some(String::from(" foo bar")), line.text);

    let line = parse_line("- foo bar");
    assert_eq!(None, line.scope);
    assert_eq!(None, line.category);
    assert_eq!(Some(String::from(" foo bar")), line.text);

    let line = parse_line("foo bar");
    assert_eq!(None, line.scope);
    assert_eq!(None, line.category);
    assert_eq!(Some(String::from("foo bar")), line.text);
}

#[test]
fn tests_commit_parse_line() {
    let line = parse_line("-fix: foo bar");
    assert_eq!(None, line.scope);
    assert_eq!(Some(String::from("fix")), line.category);
    assert_eq!(Some(String::from(" foo bar")), line.text);

    let line = parse_line("-breaK(SHELL): foo bar");
    assert_eq!(Some(String::from("shell")), line.scope);
    assert_eq!(Some(String::from("break")), line.category);
    assert_eq!(Some(String::from(" foo bar")), line.text);

    let line = parse_line("- foo bar");
    assert_eq!(None, line.scope);
    assert_eq!(None, line.category);
    assert_eq!(Some(String::from(" foo bar")), line.text);

    let line = parse_line("foo bar");
    assert_eq!(None, line.scope);
    assert_eq!(None, line.category);
    assert_eq!(Some(String::from("foo bar")), line.text);
}

#[test]
fn tests_parse_commit() {
    let change = fake_commit();
    assert_eq!(&change.sha, "2e51cdb3ef163acd31ad0ae9d1b861d544f8162b");
    assert_eq!(&change.author, "aaaaaa a a'aaaaa");
    assert!(&change.time.starts_with("2017-10-22"));
    assert_eq!(
        &change.summary,
        "Demonstrate tagging conventions for commit messages"
    );
    assert_eq!(change.number, Some(4));
    let lines = change.lines();
    assert_eq!(lines.iter().filter(|l| l.scope.is_some()).count(), 1);
    assert_eq!(lines.iter().filter(|l| l.category.is_some()).count(), 5);
}

#[test]
fn commit_message_is_joined_by_line_feeds() {
    let commit = Commit::from_lines(strings(&["sha", "me", "now", "subject", "", "a", "", "b"]));
    assert_eq!(commit.message, "\na\n\nb");
    assert_eq!(commit.to_string(), "sha:subject");
    let commit = Commit::from_lines(strings(&["sha", "me", "now", "subject"]));
    assert_eq!(commit.message, "");
    assert_eq!(commit.lines().len(), 0);
}

#[test]
fn subject_is_cut_at_the_first_opener_and_trimmed() {
    assert_eq!(parse_subject("  padded\t (#1) tail (#2)"), "padded");
    assert_eq!(parse_subject("(#7)"), "");
    assert_eq!(parse_subject(""), "");
    assert_eq!(parse_subject("\u{a0}wide\u{3000}"), "wide");
    assert_eq!(parse_subject("no number"), "no number");
}

#[test]
fn number_is_that_of_the_last_tag() {
    assert_eq!(parse_number("a (#12) b"), Some(12));
    assert_eq!(parse_number("a (#+12)"), Some(12));
    assert_eq!(parse_number("a (#12"), None);
    assert_eq!(parse_number("a ) (#12"), None);
    assert_eq!(parse_number("a (#)"), None);
    assert_eq!(parse_number("a (#+)"), None);
    assert_eq!(parse_number("a (#-1)"), None);
    assert_eq!(parse_number("a (#1 2)"), None);
    assert_eq!(parse_number("a (#12) (b)"), Some(12));
    assert_eq!(parse_number("foo (#12) (bar)"), Some(12));
    assert_eq!(parse_number("a (#12))"), Some(12));
    assert_eq!(parse_number("a (#12)3)"), Some(12));
    assert_eq!(parse_number("a (#1) (#2) (#x)"), None);
    assert_eq!(parse_number("a (#1) (#2) (x)"), Some(2));
    assert_eq!(parse_number("a (#1(#2)"), Some(2));
    assert_eq!(parse_number("(#7"), None);
    assert_eq!(parse_number("a (#0012)"), Some(12));
    assert_eq!(parse_number("a (#4294967295)"), Some(4294967295));
    assert_eq!(parse_number("a (#4294967296)"), None);
    assert_eq!(parse_number("a (#99999999999999999999999999)"), None);
    assert_eq!(parse_number("é (#5)"), Some(5));
}

#[test]
fn well_formed_scoped_lines_parse() {
    for (category, scope, text) in [
        ("fix", "api", " x"),
        ("Fix", "API", "x"),
        ("a1", "9z", "  two spaces"),
        ("BREAK", "Shell", " (more): text"),
    ] {
        let line = parse_line(&format!("- {}({}):{}", category, scope, text));
        assert_eq!(line.category, Some(category.to_lowercase()));
        assert_eq!(line.scope, Some(scope.to_lowercase()));
        assert_eq!(line.text, Some(text.to_string()));
    }
}

#[test]
fn category_alone_parses_without_text() {
    for category in ["fix", "Note", "X9"] {
        let line = parse_line(&format!("- {}:", category));
        assert_eq!(line.category, Some(category.to_lowercase()));
        assert_eq!(line.scope, None);
        assert_eq!(line.text, None);
    }
}

#[test]
fn case_and_padding_do_not_matter() {
    let loud = parse_line("-BREAK ( Shell ): x");
    let quiet = parse_line("- break(shell): x");
    assert_eq!(loud.category, quiet.category);
    assert_eq!(loud.scope, quiet.scope);
    assert_eq!(loud.text, quiet.text);
    let tabbed = parse_line("-\tbreak\t(\tshell\r): x");
    assert_eq!(tabbed.category, quiet.category);
    assert_eq!(tabbed.scope, quiet.scope);
    assert_eq!(tabbed.text, quiet.text);
}

#[test]
fn lines_that_are_no_change_are_plain_text() {
    for (input, text) in [
        ("-", None),
        ("- ", Some(" ")),
        ("-fix", Some("fix")),
        ("- fix (", Some(" fix (")),
        ("-fix(shell", Some("fix(shell")),
        ("-fix(shell)", Some("fix(shell)")),
        ("-fix(shell) : x", Some("fix(shell) : x")),
        ("-fix(): x", Some("fix(): x")),
        ("-: x", Some(": x")),
        ("- fix bug: x", Some(" fix bug: x")),
        ("- fix-bug: x", Some(" fix-bug: x")),
        ("-fi\u{e9}: x", Some("fi\u{e9}: x")),
        (" - fix: x", Some(" - fix: x")),
        ("--fix: x", Some("-fix: x")),
        ("fix: x", Some("fix: x")),
    ] {
        let line = parse_line(input);
        assert_eq!(line.category, None, "{:?}", input);
        assert_eq!(line.scope, None, "{:?}", input);
        assert_eq!(line.text, text.map(String::from), "{:?}", input);
    }
}

#[test]
fn text_is_kept_as_it_stands() {
    assert_eq!(parse_line("-fix:\t x ").text, Some("\t x ".to_string()));
    assert_eq!(parse_line("-fix(a):):").text, Some("):".to_string()));
    assert_eq!(parse_line("-fix: ").text, Some(" ".to_string()));
}

#[test]
fn numbers_are_read_as_the_standard_library_reads_them() {
    for written in [
        "", "+", "-", "0", "00", "+0", "-0", "++1", "1+", " 1", "1 ", "\u{663}", "\u{ff11}",
        "4294967295", "4294967296", "+4294967295", "+4294967296", "99999999999", "1_000", "0x10",
        "1e3", "007", "+007", "12a", "a12", "1.0", "42",
    ] {
        let subject = format!("subject (#{})", written);
        assert_eq!(parse_number(&subject), written.parse::<u32>().ok(), "{:?}", written);
    }
}

#[test]
fn summaries_are_trimmed_as_the_standard_library_trims() {
    for subject in [
        "", " ", "a", " a", "a ", "\ta b\r\n", "\u{a0}a\u{a0}", "\u{2003}a b\u{2003}\u{3000}",
        "\u{200b}a\u{200b}", "\u{1680}\u{85}x\u{2028}\u{2029}", "a\u{b}", "\u{c}a", "  ",
        "\u{feff}a", "\u{180e}a", "a\u{202f}\u{205f}",
    ] {
        assert_eq!(parse_subject(subject), subject.trim(), "{:?}", subject);
        let tagged = format!("{}(#1) (#2)", subject);
        assert_eq!(parse_subject(&tagged), subject.trim(), "{:?}", subject);
    }
}

#[test]
fn the_next_line_of_a_message_is_parsed() {
    let commit = Commit::from_lines(strings(&["sha", "me", "now", "subject", "- fix(api): a", "b"]));
    let mut message = commit.into_iter();
    let first = message.next().unwrap();
    assert_eq!(first.category, Some("fix".to_string()));
    assert_eq!(first.scope, Some("api".to_string()));
    assert_eq!(first.text, Some(" a".to_string()));
    let second = message.next().unwrap();
    assert_eq!(second.category, None);
    assert_eq!(second.text, Some("b".to_string()));
    assert!(message.next().is_none());
    assert!(message.next().is_none());
}

#[test]
fn revisions_are_read_from_the_end_of_the_list() {
    let mut list = CommitList::new(
        &strings(&["--author", "me", "v1..v2"]),
        strings(&["newest", "older", "oldest"]),
    );
    assert_eq!(list.to_string(), "--author me v1..v2 (3 commits)");
    assert_eq!(list.len(), 3);
    assert_eq!(list.next(), Some("oldest".to_string()));
    assert_eq!(list.next(), Some("older".to_string()));
    assert_eq!(list.to_string(), "--author me v1..v2 (1 commits)");
    assert_eq!(list.next(), Some("newest".to_string()));
    assert_eq!(list.next(), None);
    let reversed = commit::reversed(vec![
        Commit::from_lines(strings(&["1", "", "", ""])),
        Commit::from_lines(strings(&["2", "", "", ""])),
        Commit::from_lines(strings(&["3", "", "", ""])),
    ]);
    assert_eq!(
        reversed.iter().map(|c| c.sha.as_str()).collect::<Vec<&str>>(),
        vec!["3", "2", "1"]
    );
}

#[test]
fn the_time_of_a_commit_is_written_in_the_format() {
    let lines = strings(&["sha", "me", "Sun, 22 Oct 2017 17:26:56 -0400", "subject (#3)", "a", "b"]);
    let commit = commit::parse(&lines, "%Y-%m-%d %H:%M");
    assert_eq!(commit.time, "2017-10-22 17:26");
    assert_eq!(commit.sha, "sha");
    assert_eq!(commit.author, "me");
    assert_eq!(commit.summary, "subject");
    assert_eq!(commit.number, Some(3));
    assert_eq!(commit.message, "a\nb");
    assert_eq!(commit::parse(&lines, "%d.%m.%Y").time, "22.10.2017");
    // a format that cannot be written, and a time that cannot be read,
    // leave the time as it stands
    assert_eq!(commit::parse(&lines, "%Q").time, "Sun, 22 Oct 2017 17:26:56 -0400");
    let undated = strings(&["sha", "me", "yesterday", "subject"]);
    assert_eq!(commit::parse(&undated, "%Y").time, "yesterday");
    assert_eq!(
        commit::show_time("raw".to_string(), Some("shown".to_string())),
        "shown"
    );
    assert_eq!(commit::show_time("raw".to_string(), None), "raw");
}
