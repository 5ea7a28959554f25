use changelog::config::{complete, with_template, Configuration, Tag};
use changelog::run::default_range;
use changelog::template::tidy;

#[test]
fn a_change_is_tidied_for_a_list() {
    assert_eq!(tidy("  ", " opening \nmore\n  indented\n"), "opening\n  more\n    indented\n");
    assert_eq!(tidy("  ", "one"), "one\n");
    assert_eq!(tidy("  ", ""), "");
    assert_eq!(tidy("> ", "\n\n"), "\n> \n");
    assert_eq!(tidy("", " a \r\n b "), "a\n b \n");
}

#[test]
fn a_report_without_a_range_starts_at_the_last_tag() {
    assert_eq!(
        default_range(Some("v0.2.0".to_string())),
        vec!["^v0.2.0".to_string(), "HEAD".to_string()]
    );
    assert_eq!(
        default_range(None),
        vec!["^HEAD^".to_string(), "HEAD".to_string()]
    );
}

#[test]
fn a_configuration_is_completed_with_defaults() {
    let ready = complete(Configuration::default(), "{{title}}".to_string());
    assert_eq!(ready.template, "{{title}}");
    assert_eq!(ready.date_format, "%Y-%m-%d %H:%M");
    assert_eq!(ready.scopes.len(), 1);
    assert_eq!(ready.scopes[0].keyword, "");
    assert_eq!(ready.scopes[0].title, "");
    assert_eq!(ready.categories.len(), 1);
    assert_eq!(ready.categories[0].keyword, "");
    assert_eq!(ready.categories[0].title, "");

    let mut given = Configuration::default();
    given.title = "Changes".to_string();
    given.template = "file.hbs".to_string();
    given.date_format = "%Y".to_string();
    given.scopes.push(Tag { keyword: "api".to_string(), title: "API".to_string() });
    let ready = complete(given, "text".to_string());
    assert_eq!(ready.title, "Changes");
    assert_eq!(ready.template, "text");
    assert_eq!(ready.date_format, "%Y");
    assert_eq!(ready.scopes.len(), 1);
    assert_eq!(ready.scopes[0].title, "API");
    assert_eq!(ready.categories.len(), 1);
}

#[test]
fn a_configuration_needs_a_template_that_compiles() {
    let ready = with_template(Configuration::default(), "{{#each scopes}}{{title}}{{/each}}".to_string());
    let ready = ready.unwrap();
    assert_eq!(ready.template, "{{#each scopes}}{{title}}{{/each}}");
    assert_eq!(ready.date_format, "%Y-%m-%d %H:%M");
    assert_eq!(ready.scopes.len(), 1);
    assert!(with_template(Configuration::default(), "plain text".to_string()).is_some());
    assert!(with_template(Configuration::default(), "{{#each scopes}}".to_string()).is_none());
    assert!(with_template(Configuration::default(), "{{title".to_string()).is_none());
}
