use changelog::changelog::RawReport;
use changelog::{ChangeLog, Commit, Configuration, Keyword};

fn strings(parts: &[&str]) -> Vec<String> {
    parts.iter().map(|p| p.to_string()).collect()
}

fn commit(time: &str, subject: &str, message: &[&str]) -> Commit {
    let mut lines = vec![
        "1d82af9a1bd05c100b7b50bdcda3db39a5cddcdf".to_string(),
        "aaaaaa a a'aaaaa".to_string(),
        time.to_string(),
        subject.to_string(),
    ];
    lines.extend(message.iter().map(|l| l.to_string()));
    Commit::from_lines(lines)
}

fn readme_commit() -> Commit {
    commit(
        "Sun, 22 Oct 2017 17:26:56 -0400",
        "Demonstrate tagging conventions for commit messages (#5)",
        &[
            "",
            "Untagged lines are left out.",
            "",
            "- feature: Lines are tagged with a category keyword",
            "- feature: A tagged line can be continued",
            "  on the lines that follow it",
            "- note: Keywords are matched without regard to case",
            "- note: Untagged commits are ignored",
            "- break(api): The scope of a change stands in parentheses",
        ],
    )
}

fn configuration() -> Configuration {
    let mut config = Configuration::new();
    config.conventions.scopes.push(Keyword::new("", "General"));
    config.conventions.scopes.push(Keyword::new("api", "API"));
    config.conventions.categories.push(Keyword::new("break", "Breaking Changes"));
    config.conventions.categories.push(Keyword::new("feature", "Features"));
    config.conventions.categories.push(Keyword::new("fix", "Fixes"));
    config.conventions.categories.push(Keyword::new("note", "Notes"));
    config
}

#[test]
fn commit_parse_commit() {
    let change = readme_commit();
    assert_eq!(&change.sha, "1d82af9a1bd05c100b7b50bdcda3db39a5cddcdf");
    assert_eq!(&change.author, "aaaaaa a a'aaaaa");
    let log = ChangeLog::from(vec![readme_commit()], &configuration(), None);
    assert!(log.date.starts_with("2017-10-22"));
    assert_eq!(
        &change.summary,
        "Demonstrate tagging conventions for commit messages"
    );
    assert_eq!(change.number, Some(5));
    let lines = change.lines();
    assert_eq!(lines.iter().filter(|l| l.scope.is_some()).count(), 1);
    assert_eq!(lines.iter().filter(|l| l.category.is_some()).count(), 5);
}

#[test]
fn changes_are_grouped_in_declared_order() {
    let config = configuration();
    let remote = Some("https://github.com/aldrin/git-changelog".to_string());
    let log = ChangeLog::from(vec![readme_commit()], &config, remote.clone());
    assert_eq!(log.commits, vec![readme_commit()]);
    assert_eq!(log.remote_url, remote);
    assert_eq!(log.range, "");
    assert_eq!(log.date, "2017-10-22");
    assert_eq!(log.scopes.len(), 2);
    assert_eq!(log.scopes[0].title, "General");
    assert_eq!(log.scopes[0].categories.len(), 2);
    assert_eq!(log.scopes[0].categories[0].title, "Features");
    assert_eq!(
        log.scopes[0].categories[0].changes,
        vec![
            " Lines are tagged with a category keyword",
            " A tagged line can be continued\n  on the lines that follow it"
        ]
    );
    assert_eq!(log.scopes[0].categories[1].title, "Notes");
    assert_eq!(log.scopes[0].categories[1].changes.len(), 2);
    assert_eq!(log.scopes[1].title, "API");
    assert_eq!(log.scopes[1].categories.len(), 1);
    assert_eq!(log.scopes[1].categories[0].title, "Breaking Changes");
    assert_eq!(
        log.scopes[1].categories[0].changes,
        vec![" The scope of a change stands in parentheses"]
    );
}

#[test]
fn only_interesting_commits_are_kept() {
    let config = configuration();
    let plain = commit("Mon, 23 Oct 2017 10:00:00 +0000", "plain", &["nothing", "- to see"]);
    let fix = commit("Sat, 21 Oct 2017 10:00:00 +0000", "fix", &["- fix: one"]);
    let unknown = commit("Sat, 21 Oct 2017 10:00:00 +0000", "unknown", &["- chore: one"]);
    let empty = commit("Sat, 21 Oct 2017 10:00:00 +0000", "empty", &["- fix:", ""]);
    let late = commit("Sat, 21 Oct 2017 10:00:00 +0000", "late", &["- fix:", "", "text"]);
    let log = ChangeLog::from(vec![plain, fix, unknown, empty, late], &config, None);
    assert_eq!(
        log.commits.iter().map(|c| c.summary.as_str()).collect::<Vec<&str>>(),
        vec!["fix", "late"]
    );
    assert_eq!(log.scopes.len(), 1);
    assert_eq!(log.scopes[0].categories.len(), 1);
    assert_eq!(log.scopes[0].categories[0].changes, vec![" one", "text"]);
    // the date is that of the latest commit, interesting or not
    assert_eq!(log.date, "2017-10-23");
}

#[test]
fn blank_conventions_take_untagged_text() {
    let config = Configuration::new();
    let plain = commit("Sun, 22 Oct 2017 17:26:56 -0400", "plain", &["", "one", "", "- two"]);
    let tagged = commit("Sun, 22 Oct 2017 17:26:56 -0400", "tagged", &["- fix: three"]);
    let log = ChangeLog::from(vec![plain, tagged], &config, None);
    assert_eq!(log.commits.len(), 1);
    assert_eq!(log.scopes.len(), 1);
    assert_eq!(log.scopes[0].title, "");
    assert_eq!(log.scopes[0].categories.len(), 1);
    assert_eq!(log.scopes[0].categories[0].title, "");
    assert_eq!(log.scopes[0].categories[0].changes, vec!["one\n\n two"]);
}

#[test]
fn duplicate_titles_make_one_section_of_the_change_log() {
    let mut config = Configuration::new();
    config.conventions.scopes.push(Keyword::new("cli", "Shell"));
    config.conventions.scopes.push(Keyword::new("api", "API"));
    config.conventions.scopes.push(Keyword::new("shell", "Shell"));
    config.conventions.categories.push(Keyword::new("fix", "Fixes"));
    config.conventions.categories.push(Keyword::new("bug", "Fixes"));
    let one = commit(
        "Sun, 22 Oct 2017 17:26:56 -0400",
        "one",
        &["- bug(shell): 1", "- fix(api): 2", "- fix(cli): 3"],
    );
    let log = ChangeLog::from(vec![one], &config, None);
    assert_eq!(log.scopes.len(), 2);
    assert_eq!(log.scopes[0].title, "Shell");
    assert_eq!(log.scopes[0].categories.len(), 1);
    assert_eq!(log.scopes[0].categories[0].changes, vec![" 1", " 3"]);
    assert_eq!(log.scopes[1].title, "API");
    assert_eq!(log.scopes[1].categories[0].changes, vec![" 2"]);
}

#[test]
fn the_date_is_the_latest_day_in_utc() {
    let config = configuration();
    let evening = commit("Sun, 22 Oct 2017 21:30:00 -0400", "evening", &[]);
    let morning = commit("Sun, 22 Oct 2017 08:00:00 +0000", "morning", &[]);
    let unreadable = commit("2099-01-01", "unreadable", &[]);
    let log = ChangeLog::from(vec![morning, evening, unreadable], &config, None);
    assert_eq!(log.date, "2017-10-23");
    let early = commit("Sun, 22 Oct 2017 01:00:00 +0200", "early", &[]);
    let log = ChangeLog::from(vec![early], &config, None);
    assert_eq!(log.date, "2017-10-21");
    let undated = ChangeLog::from(vec![commit("never", "undated", &[])], &config, None);
    let empty = ChangeLog::from(Vec::new(), &config, None);
    assert_eq!(undated.date, empty.date);
    assert!(empty.date.ends_with("-01-01"));
    assert_eq!(changelog::changelog::day_to_write(None), i32::MIN);
    assert_eq!(changelog::changelog::day_to_write(Some(736624)), 736624);
    assert_eq!(changelog::changelog::later_day(Some(3), Some(5)), Some(5));
    assert_eq!(changelog::changelog::later_day(Some(5), Some(3)), Some(5));
    assert_eq!(changelog::changelog::later_day(None, Some(3)), Some(3));
    assert_eq!(changelog::changelog::later_day(Some(3), None), Some(3));
    assert_eq!(changelog::changelog::later_day(None, None), None);
    assert!(empty.commits.is_empty());
    assert!(empty.scopes.is_empty());
}

#[test]
fn a_raw_report_files_the_changes_of_a_commit() {
    let config = configuration();
    let mut raw = RawReport::new();
    assert!(raw.add(&readme_commit(), &config.conventions));
    let plain = commit("now", "plain", &["nothing"]);
    assert!(!raw.add(&plain, &config.conventions));
    let untitled = changelog::commit::parse_line("- chore: x");
    assert!(!raw.record(untitled, &config.conventions));
    let silent = changelog::commit::parse_line("- fix:");
    assert!(!raw.record(silent, &config.conventions));
    let fix = changelog::commit::parse_line("- fix: x");
    assert!(raw.record(fix, &config.conventions));
}

#[test]
fn the_range_is_recorded() {
    let config = configuration();
    let args = ChangeLog::log_arguments(Vec::new(), Some("v0.2.0".to_string()));
    assert_eq!(args, strings(&["v0.2.0..HEAD"]));
    let args = ChangeLog::log_arguments(Vec::new(), None);
    assert_eq!(args, strings(&["HEAD^..HEAD"]));
    let given = strings(&["--author", "aldrin", "--reverse"]);
    let args = ChangeLog::log_arguments(given.clone(), Some("v0.2.0".to_string()));
    assert_eq!(args, given);
    let log = ChangeLog::from_log(&args, vec![readme_commit()], &config, None);
    assert_eq!(log.range, "--author aldrin --reverse");
    assert_eq!(log.commits.len(), 1);
    assert_eq!(log.scopes.len(), 2);
    assert_eq!(log.date, "2017-10-22");
}

#[test]
fn the_same_input_gives_the_same_change_log() {
    let config = configuration();
    let first = ChangeLog::from(vec![readme_commit(), readme_commit()], &config, None);
    let second = ChangeLog::from(vec![readme_commit(), readme_commit()], &config, None);
    assert_eq!(first, second);
}
