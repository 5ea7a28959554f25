//! The vocabularies of a project: which scope and category keywords count,
//! and under which titles their changes are reported.

use crate::change::{changes, changes_of};
use crate::commit::{message_lines, Commit, CommitView};
pub use crate::input::{PostProcessor, PostProcessorView};
use crate::line::option_view;
use crate::report::{accepts, acceptable};
use handlebars::Handlebars;
use vstd::prelude::*;

verus! {

/// A tag definition
#[derive(Debug)]
pub struct Tag {
    /// The identifying keyword
    pub keyword: String,
    /// The report heading
    pub title: String,
}

/// What a `Tag` holds, as sequences of characters.
pub struct TagView {
    pub keyword: Seq<char>,
    pub title: Seq<char>,
}

impl View for Tag {
    type V = TagView;

    open spec fn view(&self) -> TagView {
        TagView { keyword: self.keyword@, title: self.title@ }
    }
}

impl DeepView for Tag {
    type V = TagView;

    open spec fn deep_view(&self) -> TagView {
        self@
    }
}

impl Default for Tag {
    fn default() -> (tag: Tag)
        ensures
            tag@ == (TagView { keyword: Seq::empty(), title: Seq::empty() }),
    {
        Tag { keyword: String::new(), title: String::new() }
    }
}

/// The tool configuration structure
#[derive(Debug)]
pub struct Configuration {
    /// The change category configuration
    pub categories: Vec<Tag>,
    /// The change scope configuration
    pub scopes: Vec<Tag>,
    /// The report title
    pub title: String,
    /// The report template
    pub template: String,
    /// The date format
    pub date_format: String,
    /// The line post-processors
    pub post_processors: Vec<PostProcessor>,
}

/// What a `Configuration` holds, as sequences.
pub struct ConfigurationView {
    pub categories: Seq<TagView>,
    pub scopes: Seq<TagView>,
    pub title: Seq<char>,
    pub template: Seq<char>,
    pub date_format: Seq<char>,
    pub post_processors: Seq<PostProcessorView>,
}

impl View for Configuration {
    type V = ConfigurationView;

    open spec fn view(&self) -> ConfigurationView {
        ConfigurationView {
            categories: self.categories.deep_view(),
            scopes: self.scopes.deep_view(),
            title: self.title@,
            template: self.template@,
            date_format: self.date_format@,
            post_processors: self.post_processors.deep_view(),
        }
    }
}

impl Default for Configuration {
    fn default() -> (config: Configuration)
        ensures
            config@ == (ConfigurationView {
                categories: Seq::empty(),
                scopes: Seq::empty(),
                title: Seq::empty(),
                template: Seq::empty(),
                date_format: Seq::empty(),
                post_processors: Seq::empty(),
            }),
    {
        let config = Configuration {
            categories: Vec::new(),
            scopes: Vec::new(),
            title: String::new(),
            template: String::new(),
            date_format: String::new(),
            post_processors: Vec::new(),
        };
        assert(config.categories.deep_view() == Seq::<TagView>::empty());
        assert(config.scopes.deep_view() == Seq::<TagView>::empty());
        assert(config.post_processors.deep_view() == Seq::<PostProcessorView>::empty());
        config
    }
}

/// Whether a text is a template: whether Handlebars can compile it.
pub uninterp spec fn is_template(template: Seq<char>) -> bool;

/// `Handlebars::register_template_string` of the crate handlebars, on a
/// new registry; whether it accepts the text. The contract claims only that
/// the outcome is determined by the text: it is the value that
/// `is_template` names.
#[verifier::external_body]
fn template_compiles(template: &str) -> (compiles: bool)
    ensures
        compiles == is_template(template@),
{
    Handlebars::new().register_template_string("t", template).is_ok()
}

/// Complete a configuration that was read, with the text of its template:
/// nothing where the text is no template.
pub fn with_template(config: Configuration, template: String) -> (ready: Option<Configuration>)
    ensures
        match ready {
            Some(r) => is_template(template@) && r@ == completed(config@, template@),
            None => !is_template(template@),
        },
{
    if template_compiles(template.as_str()) {
        Some(complete(config, template))
    } else {
        None
    }
}

/// The date format that is used where the configuration names none.
pub open spec fn default_date_format() -> Seq<char> {
    seq!['%', 'Y', '-', '%', 'm', '-', '%', 'd', ' ', '%', 'H', ':', '%', 'M']
}

/// A vocabulary as it is used: the blank tag alone where none is listed.
pub open spec fn tags_or_blank(tags: Seq<TagView>) -> Seq<TagView> {
    if tags.len() == 0 {
        seq![TagView { keyword: Seq::empty(), title: Seq::empty() }]
    } else {
        tags
    }
}

/// The configuration as it is used: with the text of the template in place
/// of its name, with the default date format where none is named, and with
/// the blank tag where no scope or no category is listed.
pub open spec fn completed(config: ConfigurationView, template: Seq<char>) -> ConfigurationView {
    ConfigurationView {
        categories: tags_or_blank(config.categories),
        scopes: tags_or_blank(config.scopes),
        title: config.title,
        template: template,
        date_format: if config.date_format.len() == 0 {
            default_date_format()
        } else {
            config.date_format
        },
        post_processors: config.post_processors,
    }
}

/// Complete a configuration that was read, with the text of its template.
pub fn complete(config: Configuration, template: String) -> (ready: Configuration)
    ensures
        ready@ == completed(config@, template@),
{
    let mut config = config;
    config.template = template;
    if config.date_format.as_str().is_empty() {
        proof {
            reveal_strlit("%Y-%m-%d %H:%M");
            assert("%Y-%m-%d %H:%M"@ =~= default_date_format());
        }
        config.date_format = "%Y-%m-%d %H:%M".to_owned();
    }
    if config.scopes.len() == 0 {
        config.scopes.push(Tag::default());
        assert(config.scopes.deep_view() =~= tags_or_blank(Seq::empty()));
    }
    if config.categories.len() == 0 {
        config.categories.push(Tag::default());
        assert(config.categories.deep_view() =~= tags_or_blank(Seq::empty()));
    }
    config
}

/// The keyword that a line is looked up under: its own tag, or the empty
/// keyword where it has none.
pub open spec fn keyword_of(given: Option<Seq<char>>) -> Seq<char> {
    match given {
        Some(keyword) => keyword,
        None => Seq::empty(),
    }
}

/// The title of the first tag at or after position `i` whose keyword is
/// `keyword`.
pub open spec fn title_from(tags: Seq<TagView>, keyword: Seq<char>, i: int) -> Option<Seq<char>>
    decreases tags.len() - i,
{
    if i < 0 || i >= tags.len() {
        None
    } else if tags[i].keyword == keyword {
        Some(tags[i].title)
    } else {
        title_from(tags, keyword, i + 1)
    }
}

/// The title under which a given tag is reported: that of the first tag of
/// the vocabulary with its keyword.
pub open spec fn title_of(tags: Seq<TagView>, given: Option<Seq<char>>) -> Option<Seq<char>> {
    title_from(tags, keyword_of(given), 0)
}

/// The title found for a keyword is that of the first tag that has the
/// keyword; none is found only where no tag has it.
pub proof fn lemma_title_from(tags: Seq<TagView>, keyword: Seq<char>, i: int)
    requires
        0 <= i,
    ensures
        match title_from(tags, keyword, i) {
            Some(title) => exists|k: int|
                i <= k < tags.len() && (#[trigger] tags[k]).keyword == keyword && tags[k].title
                    == title && forall|j: int| i <= j < k ==> (#[trigger] tags[j]).keyword != keyword,
            None => forall|k: int| i <= k < tags.len() ==> (#[trigger] tags[k]).keyword != keyword,
        },
    decreases tags.len() - i,
{
    if i < tags.len() && tags[i].keyword != keyword {
        lemma_title_from(tags, keyword, i + 1);
    }
}

/// Get the report title for a given tag
pub fn report_title(tags: &[Tag], given: &Option<String>) -> (title: Option<String>)
    ensures
        option_view(title) == title_of(tags.deep_view(), option_view(*given)),
{
    let ghost keyword = keyword_of(option_view(*given));
    let mut i: usize = 0;
    while i < tags.len()
        invariant
            i <= tags.len(),
            keyword == keyword_of(option_view(*given)),
            title_of(tags.deep_view(), option_view(*given)) == title_from(
                tags.deep_view(),
                keyword,
                i as int,
            ),
        decreases tags.len() - i,
    {
        let found = match given {
            Some(k) => tags[i].keyword == *k,
            None => tags[i].keyword.as_str().is_empty(),
        };
        assert(found == (tags@[i as int].keyword@ == keyword)) by {
            if given is None {
                assert(tags@[i as int].keyword@.len() == 0 <==> tags@[i as int].keyword@
                    =~= Seq::<char>::empty());
            }
        }
        if found {
            return Some(tags[i].title.clone());
        }
        i += 1;
    }
    None
}

/// A commit is interesting where one of the changes that its message
/// describes is accepted under the configuration.
pub open spec fn interesting(config: ConfigurationView, commit: CommitView) -> bool {
    let all = changes_of(message_lines(commit.message));
    exists|i: int| 0 <= i < all.len() && accepts(config, #[trigger] all[i])
}

/// A commit is interesting if it has at least one change with an
/// interesting scope and category, and with text.
pub fn is_interesting(config: &Configuration, commit: &Commit) -> (b: bool)
    ensures
        b == interesting(config@, commit@),
{
    let all = changes(commit.lines());
    let mut i: usize = 0;
    while i < all.len()
        invariant
            i <= all.len(),
            all.deep_view() == changes_of(message_lines(commit@.message)),
            forall|k: int| 0 <= k < i ==> !accepts(config@, #[trigger] all.deep_view()[k]),
        decreases all.len() - i,
    {
        assert(all.deep_view()[i as int] == all@[i as int]@);
        if acceptable(config, &all[i]) {
            return true;
        }
        i += 1;
    }
    false
}

} // verus!
