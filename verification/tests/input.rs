use changelog::{Configuration, Conventions, Keyword, OutputPreferences};

fn conventions() -> Conventions {
    let mut conventions = Conventions::default();
    conventions.scopes.push(Keyword::new("api", "API"));
    conventions.scopes.push(Keyword::new("", "General"));
    conventions.scopes.push(Keyword::new("api", "Again"));
    conventions.categories.push(Keyword::new("feature", "New Features"));
    conventions.categories.push(Keyword::new("break", "Breaking Changes"));
    conventions
}

#[test]
fn titles_of_tags() {
    let conventions = conventions();
    assert_eq!(conventions.scope_title(Some("api".to_string())), Some("API"));
    assert_eq!(conventions.scope_title(None), Some("General"));
    assert_eq!(conventions.scope_title(Some("".to_string())), Some("General"));
    assert_eq!(conventions.scope_title(Some("cli".to_string())), None);
    assert_eq!(
        conventions.category_title(Some("break".to_string())),
        Some("Breaking Changes")
    );
    assert_eq!(conventions.category_title(None), None);
    assert_eq!(conventions.category_title(Some("Break".to_string())), None);
}

#[test]
fn blank_convention() {
    let conventions = Conventions::default();
    assert_eq!(conventions.scope_title(None), Some(""));
    assert_eq!(conventions.category_title(None), Some(""));
    assert_eq!(conventions.scope_title(Some("".to_string())), None);
    assert_eq!(conventions.scope_title(Some("api".to_string())), None);
    assert_eq!(conventions.scope_titles(), vec![""]);
    assert_eq!(conventions.category_titles(), vec![""]);
}

#[test]
fn titles_in_declared_order() {
    let conventions = conventions();
    assert_eq!(conventions.scope_titles(), vec!["API", "General", "Again"]);
    assert_eq!(
        conventions.category_titles(),
        vec!["New Features", "Breaking Changes"]
    );
    assert_eq!(Conventions::titles(&conventions.scopes).len(), 3);
    assert_eq!(Conventions::title(&conventions.scopes, None), Some("General"));
}

#[test]
fn defaults() {
    let config = Configuration::new();
    assert!(config.conventions.scopes.is_empty());
    assert!(config.conventions.categories.is_empty());
    assert!(!config.output.json);
    assert_eq!(config.output.template, None);
    assert_eq!(config.output.remote, None);
    assert!(config.output.post_processors.is_empty());
    assert_eq!(config.output.remote_name(), "origin");
    let mut output = OutputPreferences::default();
    output.remote = Some("upstream".to_string());
    assert_eq!(output.remote_name(), "upstream");
    assert_eq!(changelog::CONFIG_FILE, ".changelog.yml");
    assert_eq!(changelog::TEMPLATE_FILE, ".changelog.hbs");
    let keyword = Keyword::default();
    assert_eq!(keyword.tag, "");
    assert_eq!(keyword.title, "");
}
