use changelog::git;
use changelog::git::usable_url;

#[test]
fn get_usable_url() {
    let ssh = String::from("git@github.com:aldrin/git-changelog.git");
    let raw = String::from("https://github.com/aldrin/git-changelog.git");
    let usable = "https://github.com/aldrin/git-changelog";
    assert_eq!(usable_url(usable.to_string()), Some(usable.to_string()));
    assert_eq!(usable_url(raw), Some(usable.to_string()));
    assert_eq!(usable_url(ssh), None);
}

#[test]
fn get_remote_url() {
    let expected = Some(String::from("https://github.com/aldrin/git-changelog"));
    let found = git::get_remote_url(vec![String::from(
        "https://github.com/aldrin/git-changelog.git",
    )]);
    assert_eq!(found, expected);
    assert_eq!(git::get_remote_url(Vec::new()), None);
    assert_eq!(git::get_remote_url(vec![String::from("bad")]), None);
}

#[test]
fn last_tag() {
    assert_eq!(git::last_tag(Vec::new()), None);
    assert_eq!(
        git::last_tag(vec![String::from("v0.2.0")]),
        Some(String::from("v0.2.0"))
    );
}

#[test]
fn tests_git_last_tag() {
    match git::last_tag(vec![String::from("v0.1.1")]) {
        Some(tag) => assert_eq!(tag, "v0.1.1"),
        _ => panic!("unexpected error"),
    };
}

#[test]
fn git_git_last_tag() {
    assert!(git::last_tag(vec![String::from("v0.1.1"), String::from("v0.2.0")]).is_some());
    assert_eq!(
        git::last_tag(vec![String::from("v0.1.1"), String::from("v0.2.0")]),
        Some(String::from("v0.2.0"))
    );
}

#[test]
fn address_is_cut_at_its_last_suffix() {
    assert_eq!(
        usable_url(String::from("HTTP://host/a.git/b.git")),
        Some(String::from("HTTP://host/a.git/b"))
    );
    assert_eq!(
        usable_url(String::from("https://host/a.github.io")),
        Some(String::from("https://host/a"))
    );
    assert_eq!(usable_url(String::from("htt")), None);
    assert_eq!(usable_url(String::from("")), None);
    assert_eq!(usable_url(String::from("HtTp")), Some(String::from("HtTp")));
    assert_eq!(usable_url(String::from("ftp://host/a.git")), None);
}

#[test]
fn last_line_of_the_answer_counts() {
    assert_eq!(
        git::get_remote_url(vec![
            String::from("https://first/one.git"),
            String::from("https://second/two.git")
        ]),
        Some(String::from("https://second/two"))
    );
}

#[test]
fn usable_addresses_begin_with_http_in_any_case() {
    for raw in [
        "http://a", "HTTP://a", "Http://a.git", "hTTp", "htt", "", "xhttp://a", " http://a",
        "\u{ff48}ttp://a", "h\u{74}tp://a", "\u{126}TTP://a", "ht\u{1e6a}p://a", "HTTP\u{130}",
        "git@github.com:a/b.git", "https://github.com/a/b.git", "https://a/.git/b",
    ] {
        let expected = if raw.to_lowercase().starts_with("http") {
            match raw.rfind(".git") {
                Some(index) => Some(raw[0..index].to_string()),
                None => Some(raw.to_string()),
            }
        } else {
            None
        };
        assert_eq!(usable_url(raw.to_string()), expected, "{:?}", raw);
    }
}
