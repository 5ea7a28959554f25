use changelog::config;
use changelog::output;
use changelog::output::{process_line, settle};
use changelog::PostProcessor;

#[test]
fn post_process() {
    let input = String::from("Fixed JIRA-1234\nfoo");
    let mut jira = PostProcessor::default();
    jira.lookup = r"JIRA-(?P<t>\d+)".to_string();
    jira.replace = r"[JIRA-$t](https://our.jira/$t)".to_string();
    let out = output::post_process(&input, &vec![jira]);
    assert_eq!(&out, "Fixed [JIRA-1234](https://our.jira/1234)\nfoo");

    let mut bad = PostProcessor::default();
    bad.lookup = r"JIRA-?(P<t\d+".to_string();
    bad.replace = r"whatever".to_string();
    let out = output::post_process(&input, &vec![bad]);
    assert_eq!(&out, &input);
}

#[test]
fn postprocess() {
    let input = String::from("Fixed JIRA-1234");
    let jira = config::PostProcessor {
        lookup: r"JIRA-(?P<t>\d+)".to_string(),
        replace: r"[JIRA-$t](https://jira.company.com/$t)".to_string(),
    };
    let mut config = config::Configuration::default();
    config.post_processors = vec![jira];

    let output = output::postprocess(&config, &input);
    assert_eq!(&output, "Fixed [JIRA-1234](https://jira.company.com/1234)");
}

#[test]
fn tests_postprocess() {
    let input = String::from("Fixed JIRA-1234");
    let jira = config::PostProcessor {
        lookup: r"JIRA-(?P<t>\d+)".to_string(),
        replace: r"[JIRA-$t](https://jira.company.com/$t)".to_string(),
    };
    let mut config = config::Configuration::default();
    config.post_processors = vec![jira];

    let output = output::postprocess(&config, &input);
    assert_eq!(&output, "Fixed [JIRA-1234](https://jira.company.com/1234)");
}

#[test]
fn report_postprocess() {
    let input = String::from("Fixed JIRA-1234");
    let jira = config::PostProcessor {
        lookup: r"JIRA-(?P<t>\d+)".to_string(),
        replace: r"[JIRA-$t](https://jira.company.com/$t)".to_string(),
    };
    let mut config = config::Configuration::default();
    config.post_processors = vec![jira];

    let output = output::postprocess(&config, &input);
    assert_eq!(&output, "Fixed [JIRA-1234](https://jira.company.com/1234)");
}

fn processor(lookup: &str, replace: &str) -> PostProcessor {
    PostProcessor {
        lookup: lookup.to_string(),
        replace: replace.to_string(),
    }
}

#[test]
fn processors_work_in_order_and_line_by_line() {
    let first = processor("a", "b");
    let second = processor("b", "c");
    assert_eq!(process_line("aab", &[first, second]), "ccc");
    let first = processor("b", "c");
    let second = processor("a", "b");
    assert_eq!(process_line("aab", &[first, second]), "bbc");
    // a match cannot span lines, and the last line feed is not kept
    let spanning = processor(r"a\nb", "x");
    assert_eq!(output::post_process("a\nb\n", &[spanning]), "a\nb");
    let anchored = processor("^", ">");
    assert_eq!(output::post_process("a\r\n\nb", &[anchored]), ">a\n>\n>b");
    assert_eq!(output::post_process("", &[processor("^", ">")]), "");
    assert_eq!(output::post_process("a\nb", &[]), "a\nb");
}

#[test]
fn invalid_processors_are_passed_over() {
    let bad = processor("(", "x");
    let good = processor("a", "b");
    assert_eq!(process_line("a(", &[bad, good]), "b(");
}

#[test]
fn a_line_goes_on_as_the_processor_left_it() {
    assert_eq!(settle(String::from("a"), Some(String::from("b"))), "b");
    assert_eq!(settle(String::from("a"), None), "a");
}
