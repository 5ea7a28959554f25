//! The conventions of a repository and the output preferences.

use crate::line::option_view;
use vstd::prelude::*;

verus! {

/// The YAML configuration file name (`.changelog.yml`).
pub const CONFIG_FILE: &'static str = ".changelog.yml";

/// The Handlebars template file name (`.changelog.hbs`).
pub const TEMPLATE_FILE: &'static str = ".changelog.hbs";

/// A keyword used to categorize commit message lines.
#[derive(Clone, Debug)]
pub struct Keyword {
    /// The identifying tag used in commit messages.
    pub tag: String,
    /// The presentation title that shows up in the final change log.
    pub title: String,
}

/// What a `Keyword` holds, as sequences of characters.
pub struct KeywordView {
    pub tag: Seq<char>,
    pub title: Seq<char>,
}

impl View for Keyword {
    type V = KeywordView;

    open spec fn view(&self) -> KeywordView {
        KeywordView { tag: self.tag@, title: self.title@ }
    }
}

impl DeepView for Keyword {
    type V = KeywordView;

    open spec fn deep_view(&self) -> KeywordView {
        self@
    }
}

impl Keyword {
    /// The keyword with the given tag and title.
    pub fn new(tag: &str, title: &str) -> (keyword: Keyword)
        ensures
            keyword@ == (KeywordView { tag: tag@, title: title@ }),
    {
        Keyword { tag: tag.to_owned(), title: title.to_owned() }
    }
}

impl Default for Keyword {
    fn default() -> (keyword: Keyword)
        ensures
            keyword@ == (KeywordView { tag: Seq::empty(), title: Seq::empty() }),
    {
        Keyword { tag: String::new(), title: String::new() }
    }
}

/// The change categorization conventions used by a repository/project.
#[derive(Debug)]
pub struct Conventions {
    /// The scope keywords
    pub scopes: Vec<Keyword>,
    /// The category keywords
    pub categories: Vec<Keyword>,
}

/// What `Conventions` hold.
pub struct ConventionsView {
    pub scopes: Seq<KeywordView>,
    pub categories: Seq<KeywordView>,
}

impl View for Conventions {
    type V = ConventionsView;

    open spec fn view(&self) -> ConventionsView {
        ConventionsView {
            scopes: self.scopes.deep_view(),
            categories: self.categories.deep_view(),
        }
    }
}

impl Default for Conventions {
    fn default() -> (conventions: Conventions)
        ensures
            conventions@ == (ConventionsView { scopes: Seq::empty(), categories: Seq::empty() }),
    {
        let conventions = Conventions { scopes: Vec::new(), categories: Vec::new() };
        assert(conventions.scopes.deep_view() == Seq::<KeywordView>::empty());
        assert(conventions.categories.deep_view() == Seq::<KeywordView>::empty());
        conventions
    }
}

/// A post-processor definition.
#[derive(Debug)]
pub struct PostProcessor {
    /// The lookup pattern
    pub lookup: String,
    /// The replace pattern
    pub replace: String,
}

/// What a `PostProcessor` holds, as sequences of characters.
pub struct PostProcessorView {
    pub lookup: Seq<char>,
    pub replace: Seq<char>,
}

impl View for PostProcessor {
    type V = PostProcessorView;

    open spec fn view(&self) -> PostProcessorView {
        PostProcessorView { lookup: self.lookup@, replace: self.replace@ }
    }
}

impl DeepView for PostProcessor {
    type V = PostProcessorView;

    open spec fn deep_view(&self) -> PostProcessorView {
        self@
    }
}

impl Default for PostProcessor {
    fn default() -> (processor: PostProcessor)
        ensures
            processor@ == (PostProcessorView { lookup: Seq::empty(), replace: Seq::empty() }),
    {
        PostProcessor { lookup: String::new(), replace: String::new() }
    }
}

/// The output preferences
#[derive(Debug)]
pub struct OutputPreferences {
    /// Output as JSON
    pub json: bool,
    /// Output Handlebar template
    pub template: Option<String>,
    /// The remote url
    pub remote: Option<String>,
    /// Output line post-processors
    pub post_processors: Vec<PostProcessor>,
}

/// What `OutputPreferences` hold.
pub struct OutputPreferencesView {
    pub json: bool,
    pub template: Option<Seq<char>>,
    pub remote: Option<Seq<char>>,
    pub post_processors: Seq<PostProcessorView>,
}

impl View for OutputPreferences {
    type V = OutputPreferencesView;

    open spec fn view(&self) -> OutputPreferencesView {
        OutputPreferencesView {
            json: self.json,
            template: option_view(self.template),
            remote: option_view(self.remote),
            post_processors: self.post_processors.deep_view(),
        }
    }
}

impl Default for OutputPreferences {
    fn default() -> (output: OutputPreferences)
        ensures
            output@ == (OutputPreferencesView {
                json: false,
                template: None,
                remote: None,
                post_processors: Seq::empty(),
            }),
    {
        let output = OutputPreferences {
            json: false,
            template: None,
            remote: None,
            post_processors: Vec::new(),
        };
        assert(output.post_processors.deep_view() == Seq::<PostProcessorView>::empty());
        output
    }
}

impl OutputPreferences {
    /// The name of the remote whose address the change log links to:
    /// the one preferred, or `origin`.
    pub fn remote_name(&self) -> (name: &str)
        ensures
            name@ == match self.remote {
                Some(r) => r@,
                None => "origin"@,
            },
    {
        match &self.remote {
            Some(r) => r.as_str(),
            None => "origin",
        }
    }
}

/// The tool configuration.
///
/// The configuration defines the repository conventions and output preferences.
#[derive(Debug)]
pub struct Configuration {
    /// The project conventions
    pub conventions: Conventions,
    /// The output preferences
    pub output: OutputPreferences,
}

/// What a `Configuration` holds.
pub struct ConfigurationView {
    pub conventions: ConventionsView,
    pub output: OutputPreferencesView,
}

impl View for Configuration {
    type V = ConfigurationView;

    open spec fn view(&self) -> ConfigurationView {
        ConfigurationView { conventions: self.conventions@, output: self.output@ }
    }
}

impl Default for Configuration {
    fn default() -> (config: Configuration)
        ensures
            config@ == (ConfigurationView {
                conventions: ConventionsView { scopes: Seq::empty(), categories: Seq::empty() },
                output: OutputPreferencesView {
                    json: false,
                    template: None,
                    remote: None,
                    post_processors: Seq::empty(),
                },
            }),
    {
        Configuration { conventions: Conventions::default(), output: OutputPreferences::default() }
    }
}

impl Configuration {
    /// The configuration without keywords and with the default output.
    pub fn new() -> (config: Configuration)
        ensures
            config@ == (ConfigurationView {
                conventions: ConventionsView { scopes: Seq::empty(), categories: Seq::empty() },
                output: OutputPreferencesView {
                    json: false,
                    template: None,
                    remote: None,
                    post_processors: Seq::empty(),
                },
            }),
    {
        Configuration::default()
    }
}

/// The tag that a line is looked up under: its own, or the empty tag where
/// it has none.
pub open spec fn tag_of(given: Option<Seq<char>>) -> Seq<char> {
    match given {
        Some(tag) => tag,
        None => Seq::empty(),
    }
}

/// The title of the first keyword at or after position `i` whose tag is
/// `tag`.
pub open spec fn title_from(keywords: Seq<KeywordView>, tag: Seq<char>, i: int) -> Option<
    Seq<char>,
>
    decreases keywords.len() - i,
{
    if i < 0 || i >= keywords.len() {
        None
    } else if keywords[i].tag == tag {
        Some(keywords[i].title)
    } else {
        title_from(keywords, tag, i + 1)
    }
}

/// The title for a tag: where no keyword is defined and no tag is given, the
/// blank title; else the title of the first keyword with the tag.
pub open spec fn title_of(keywords: Seq<KeywordView>, given: Option<Seq<char>>) -> Option<
    Seq<char>,
> {
    if keywords.len() == 0 && given is None {
        Some(Seq::empty())
    } else {
        title_from(keywords, tag_of(given), 0)
    }
}

/// The titles of the keywords in order; the blank title alone where no
/// keyword is defined.
pub open spec fn titles_of(keywords: Seq<KeywordView>) -> Seq<Seq<char>> {
    if keywords.len() == 0 {
        seq![Seq::empty()]
    } else {
        Seq::new(keywords.len(), |i: int| keywords[i].title)
    }
}

/// The sequences of characters that the strings hold.
pub open spec fn views(strs: Seq<&str>) -> Seq<Seq<char>> {
    Seq::new(strs.len(), |i: int| strs[i]@)
}

/// The view of an optional string slice.
pub open spec fn str_view(o: Option<&str>) -> Option<Seq<char>> {
    match o {
        Some(s) => Some(s@),
        None => None,
    }
}

/// The title found for a tag is that of the first keyword that has the tag;
/// none is found only where no keyword has it.
pub proof fn lemma_title_from(keywords: Seq<KeywordView>, tag: Seq<char>, i: int)
    requires
        0 <= i,
    ensures
        match title_from(keywords, tag, i) {
            Some(title) => exists|k: int|
                i <= k < keywords.len() && (#[trigger] keywords[k]).tag == tag && keywords[k].title
                    == title && forall|j: int| i <= j < k ==> (#[trigger] keywords[j]).tag != tag,
            None => forall|k: int| i <= k < keywords.len() ==> (#[trigger] keywords[k]).tag != tag,
        },
    decreases keywords.len() - i,
{
    if i < keywords.len() && keywords[i].tag != tag {
        lemma_title_from(keywords, tag, i + 1);
    }
}

impl Conventions {
    /// Get the title for the given scope
    pub fn scope_title(&self, scope: Option<String>) -> (title: Option<&str>)
        ensures
            str_view(title) == title_of(self@.scopes, option_view(scope)),
    {
        Self::title(&self.scopes, scope)
    }

    /// Get the title for the given category
    pub fn category_title(&self, category: Option<String>) -> (title: Option<&str>)
        ensures
            str_view(title) == title_of(self@.categories, option_view(category)),
    {
        Self::title(&self.categories, category)
    }

    /// Get the titles for all the categories defined
    pub fn category_titles(&self) -> (titles: Vec<&str>)
        ensures
            views(titles@) == titles_of(self@.categories),
    {
        Self::titles(&self.categories)
    }

    /// Get the titles for all the scopes defined
    pub fn scope_titles(&self) -> (titles: Vec<&str>)
        ensures
            views(titles@) == titles_of(self@.scopes),
    {
        Self::titles(&self.scopes)
    }

    /// Given the available keywords, get the title for the given tag
    pub fn title<'a>(keywords: &'a Vec<Keyword>, tag: Option<String>) -> (title: Option<&'a str>)
        ensures
            str_view(title) == title_of(keywords.deep_view(), option_view(tag)),
    {
        if keywords.len() == 0 && tag.is_none() {
            proof {
                reveal_strlit("");
            }
            return Some("");
        }
        let ghost wanted = tag_of(option_view(tag));
        let mut i: usize = 0;
        while i < keywords.len()
            invariant
                i <= keywords.len(),
                wanted == tag_of(option_view(tag)),
                title_from(keywords.deep_view(), wanted, 0) == title_from(
                    keywords.deep_view(),
                    wanted,
                    i as int,
                ),
            decreases keywords.len() - i,
        {
            let found = match &tag {
                Some(t) => keywords[i].tag == *t,
                None => keywords[i].tag.as_str().is_empty(),
            };
            assert(found == (keywords@[i as int].tag@ == wanted)) by {
                if tag is None {
                    assert(keywords@[i as int].tag@.len() == 0 <==> keywords@[i as int].tag@
                        =~= Seq::<char>::empty());
                }
            }
            if found {
                return Some(keywords[i].title.as_str());
            }
            i += 1;
        }
        None
    }

    /// Given the available keywords, get a list of the titles
    pub fn titles<'a>(keywords: &'a Vec<Keyword>) -> (titles: Vec<&'a str>)
        ensures
            views(titles@) == titles_of(keywords.deep_view()),
    {
        let mut titles: Vec<&str> = Vec::new();
        if keywords.len() == 0 {
            proof {
                reveal_strlit("");
                assert(""@ =~= Seq::<char>::empty());
            }
            titles.push("");
            return titles;
        }
        let mut i: usize = 0;
        while i < keywords.len()
            invariant
                i <= keywords.len(),
                titles@.len() == i,
                forall|k: int| 0 <= k < i ==> (#[trigger] titles@[k])@ == keywords@[k].title@,
            decreases keywords.len() - i,
        {
            titles.push(keywords[i].title.as_str());
            i += 1;
        }
        titles
    }
}

} // verus!
