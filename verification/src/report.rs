//! Presentation and reporting: from commits to changes grouped by scope and
//! category.
//!
//! The first pass walks the commits and records every accepted change, each
//! under the title of its scope and of its category and with the next
//! sequence number. The second pass lays the recorded changes out in the
//! order in which the configuration declares its scopes and categories.

use crate::change::{changes, changes_of, State, StateView};
use crate::commit::{message_lines, Commit, CommitView};
use crate::config::{report_title, title_of, Configuration, ConfigurationView, Tag, TagView};
use crate::text::{blank, is_blank};
use vstd::prelude::*;
use vstd::string::{StrSliceExecFns, StringExecFns};

verus! {

/// Change description
#[derive(Clone, Debug)]
pub struct Text {
    /// A sequence number to inform ordering
    pub sequence: u64,
    /// An opening headline
    pub opening: String,
    /// The remaining lines in the description
    pub rest: Vec<String>,
}

/// What a `Text` holds.
pub struct TextView {
    pub sequence: nat,
    pub opening: Seq<char>,
    pub rest: Seq<Seq<char>>,
}

impl View for Text {
    type V = TextView;

    open spec fn view(&self) -> TextView {
        TextView {
            sequence: self.sequence as nat,
            opening: self.opening@,
            rest: self.rest.deep_view(),
        }
    }
}

impl DeepView for Text {
    type V = TextView;

    open spec fn deep_view(&self) -> TextView {
        self@
    }
}

/// A group of changes with the same category
#[derive(Debug)]
pub struct Category {
    /// The title of the category
    pub title: String,
    /// A list of change descriptions
    pub changes: Vec<Text>,
}

/// What a `Category` holds.
pub struct CategoryView {
    pub title: Seq<char>,
    pub changes: Seq<TextView>,
}

impl View for Category {
    type V = CategoryView;

    open spec fn view(&self) -> CategoryView {
        CategoryView { title: self.title@, changes: self.changes.deep_view() }
    }
}

impl DeepView for Category {
    type V = CategoryView;

    open spec fn deep_view(&self) -> CategoryView {
        self@
    }
}

/// A group of changes in the same scope
#[derive(Debug)]
pub struct Scope {
    /// The title of the scope
    pub title: String,
    /// A list of categorized changes
    pub categories: Vec<Category>,
}

/// What a `Scope` holds.
pub struct ScopeView {
    pub title: Seq<char>,
    pub categories: Seq<CategoryView>,
}

impl View for Scope {
    type V = ScopeView;

    open spec fn view(&self) -> ScopeView {
        ScopeView { title: self.title@, categories: self.categories.deep_view() }
    }
}

impl DeepView for Scope {
    type V = ScopeView;

    open spec fn deep_view(&self) -> ScopeView {
        self@
    }
}

/// The complete report
#[derive(Debug)]
pub struct Report<'a> {
    /// Scoped changes in the report
    pub scopes: Vec<Scope>,
    /// All interesting commits
    pub commits: &'a [Commit],
}

/// What a `Report` holds.
pub struct ReportView {
    pub scopes: Seq<ScopeView>,
    pub commits: Seq<CommitView>,
}

impl<'a> View for Report<'a> {
    type V = ReportView;

    open spec fn view(&self) -> ReportView {
        ReportView { scopes: self.scopes.deep_view(), commits: self.commits.deep_view() }
    }
}

/// A recorded change: the titles it is filed under, and its description.
/// Its sequence number is its place in the raw report.
#[derive(Debug)]
pub struct Entry {
    scope: String,
    category: String,
    opening: String,
    rest: Vec<String>,
}

/// What an `Entry` holds.
pub struct EntryView {
    pub scope: Seq<char>,
    pub category: Seq<char>,
    pub text: TextView,
}

impl Entry {
    /// What the entry holds when it stands at position `i` of a raw report:
    /// its sequence number is `i + 1`.
    pub closed spec fn at(&self, i: int) -> EntryView {
        EntryView {
            scope: self.scope@,
            category: self.category@,
            text: TextView {
                sequence: (i + 1) as nat,
                opening: self.opening@,
                rest: self.rest.deep_view(),
            },
        }
    }
}

/// The changes recorded so far, in the order in which they were accepted.
#[derive(Debug)]
pub struct RawReport {
    entries: Vec<Entry>,
}

impl View for RawReport {
    type V = Seq<EntryView>;

    closed spec fn view(&self) -> Seq<EntryView> {
        Seq::new(self.entries@.len(), |i: int| self.entries@[i].at(i))
    }
}

/// The recorded changes carry the sequence numbers 1, 2, 3 and so on.
pub open spec fn numbered(raw: Seq<EntryView>) -> bool {
    forall|i: int| 0 <= i < raw.len() ==> (#[trigger] raw[i]).text.sequence == i + 1
}

/// In every category the changes stand by rising sequence number.
pub open spec fn ascending(sections: Seq<ScopeView>) -> bool {
    forall|s: int, c: int, a: int, b: int|
        0 <= s < sections.len() && 0 <= c < sections[s].categories.len() && 0 <= a < b
            < sections[s].categories[c].changes.len() ==> (
        #[trigger] sections[s].categories[c].changes[a]).sequence < (
        #[trigger] sections[s].categories[c].changes[b]).sequence
}

impl RawReport {
    /// The changes of a raw report are numbered in the order in which they
    /// were accepted.
    pub proof fn lemma_numbered(&self)
        ensures
            numbered(self@),
    {
    }

    /// The report without changes.
    pub fn new() -> (raw: RawReport)
        ensures
            raw@ == Seq::<EntryView>::empty(),
    {
        let raw = RawReport { entries: Vec::new() };
        assert(raw@ =~= Seq::<EntryView>::empty());
        raw
    }

    /// The number of changes recorded.
    pub fn len(&self) -> (n: usize)
        ensures
            n == self@.len(),
    {
        self.entries.len()
    }
}

/// The position of the first line at or after `i` that is not blank, or the
/// number of lines.
pub open spec fn first_filled(text: Seq<Seq<char>>, i: int) -> int
    decreases text.len() - i,
{
    if 0 <= i < text.len() && is_blank(text[i]) {
        first_filled(text, i + 1)
    } else {
        i
    }
}

/// The first line that is not blank lies within the text or at its end,
/// every line before it is blank, and it is not blank itself.
pub proof fn lemma_first_filled(text: Seq<Seq<char>>, i: int)
    requires
        0 <= i <= text.len(),
    ensures
        i <= first_filled(text, i) <= text.len(),
        forall|k: int| i <= k < first_filled(text, i) ==> is_blank(#[trigger] text[k]),
        first_filled(text, i) < text.len() ==> !is_blank(text[first_filled(text, i)]),
    decreases text.len() - i,
{
    if i < text.len() && is_blank(text[i]) {
        lemma_first_filled(text, i + 1);
    }
}

/// The text has a line that is not blank.
pub open spec fn has_opening(text: Seq<Seq<char>>) -> bool {
    first_filled(text, 0) < text.len()
}

/// The line with one space in front, unless it begins with a space already.
pub open spec fn buffered(line: Seq<char>) -> Seq<char> {
    if line.len() > 0 && line[0] == ' ' {
        line
    } else {
        seq![' '] + line
    }
}

/// The opening line of a change: its first line that is not blank, with a
/// space in front.
pub open spec fn opening_of(text: Seq<Seq<char>>) -> Seq<char> {
    buffered(text[first_filled(text, 0)])
}

/// The lines of a change that follow its opening line.
pub open spec fn rest_of(text: Seq<Seq<char>>) -> Seq<Seq<char>> {
    text.skip(first_filled(text, 0) + 1)
}

/// A change is accepted where its scope and its category have a title in
/// the configuration and its text has a line that is not blank.
pub open spec fn accepts(config: ConfigurationView, state: StateView) -> bool {
    title_of(config.scopes, state.scope) is Some && title_of(config.categories, state.category)
        is Some && has_opening(state.text)
}

/// The entry that an accepted change becomes when it is the `sequence`th.
pub open spec fn entry_of(config: ConfigurationView, state: StateView, sequence: nat) -> EntryView {
    EntryView {
        scope: title_of(config.scopes, state.scope)->0,
        category: title_of(config.categories, state.category)->0,
        text: TextView {
            sequence: sequence,
            opening: opening_of(state.text),
            rest: rest_of(state.text),
        },
    }
}

/// The raw report once `state` has been offered to it: an accepted change
/// is added at the end with the next sequence number, and any other change
/// leaves the report as it was.
pub open spec fn recorded(raw: Seq<EntryView>, config: ConfigurationView, state: StateView) -> Seq<
    EntryView,
> {
    if accepts(config, state) {
        raw.push(entry_of(config, state, raw.len() + 1))
    } else {
        raw
    }
}

/// The raw report once the changes `all` have been offered to it in order.
pub open spec fn recorded_all(
    raw: Seq<EntryView>,
    config: ConfigurationView,
    all: Seq<StateView>,
) -> Seq<EntryView>
    decreases all.len(),
{
    if all.len() == 0 {
        raw
    } else {
        recorded_all(recorded(raw, config, all[0]), config, all.drop_first())
    }
}

/// The raw report once the changes of `commits` have been offered to it,
/// commit by commit.
pub open spec fn gathered(
    raw: Seq<EntryView>,
    config: ConfigurationView,
    commits: Seq<CommitView>,
) -> Seq<EntryView>
    decreases commits.len(),
{
    if commits.len() == 0 {
        raw
    } else {
        gathered(
            recorded_all(raw, config, changes_of(message_lines(commits[0].message))),
            config,
            commits.drop_first(),
        )
    }
}

/// The raw report of a list of commits.
pub open spec fn raw_report_of(config: ConfigurationView, commits: Seq<CommitView>) -> Seq<
    EntryView,
> {
    gathered(Seq::empty(), config, commits)
}

/// Offering changes never removes a recorded change, and keeps the
/// numbering.
pub proof fn lemma_recorded_all(raw: Seq<EntryView>, config: ConfigurationView, all: Seq<StateView>)
    ensures
        recorded_all(raw, config, all).len() >= raw.len(),
        numbered(raw) ==> numbered(recorded_all(raw, config, all)),
    decreases all.len(),
{
    if all.len() > 0 {
        lemma_recorded_all(recorded(raw, config, all[0]), config, all.drop_first());
    }
}

/// Offering commits never removes a recorded change, and keeps the
/// numbering.
pub proof fn lemma_gathered(raw: Seq<EntryView>, config: ConfigurationView, commits: Seq<CommitView>)
    ensures
        gathered(raw, config, commits).len() >= raw.len(),
        numbered(raw) ==> numbered(gathered(raw, config, commits)),
    decreases commits.len(),
{
    if commits.len() > 0 {
        let next = recorded_all(raw, config, changes_of(message_lines(commits[0].message)));
        lemma_recorded_all(raw, config, changes_of(message_lines(commits[0].message)));
        lemma_gathered(next, config, commits.drop_first());
    }
}

/// The position of the first line that is not blank.
fn filled_from(text: &Vec<String>) -> (first: usize)
    ensures
        first == first_filled(text.deep_view(), 0),
        first <= text.len(),
{
    let mut i: usize = 0;
    while i < text.len()
        invariant
            i <= text.len(),
            first_filled(text.deep_view(), 0) == first_filled(text.deep_view(), i as int),
        decreases text.len() - i,
    {
        if !blank(text[i].as_str()) {
            return i;
        }
        i += 1;
    }
    i
}

/// Whether a change would be recorded under the configuration.
pub fn acceptable(config: &Configuration, state: &State) -> (b: bool)
    ensures
        b == accepts(config@, state@),
{
    let scopes = config.scopes.as_slice();
    let categories = config.categories.as_slice();
    let scope = report_title(scopes, &state.scope);
    let category = report_title(categories, &state.category);
    scope.is_some() && category.is_some() && filled_from(&state.text) < state.text.len()
}

/// The line with a space in front, unless it has one.
fn with_buffer(line: &String) -> (out: String)
    ensures
        out@ == buffered(line@),
{
    if !line.as_str().is_empty() && line.as_str().get_char(0) == ' ' {
        line.clone()
    } else {
        let mut out = String::new();
        out.push(' ');
        out.append(line.as_str());
        out
    }
}

/// A copy of the lines from position `from` on.
fn copy_from(text: &Vec<String>, from: usize) -> (out: Vec<String>)
    requires
        from <= text.len(),
    ensures
        out.deep_view() == text.deep_view().skip(from as int),
{
    let mut out: Vec<String> = Vec::new();
    let mut i: usize = from;
    while i < text.len()
        invariant
            from <= i <= text.len(),
            out.deep_view() == text.deep_view().subrange(from as int, i as int),
        decreases text.len() - i,
    {
        let ghost before = out.deep_view();
        out.push(text[i].clone());
        assert(before.push(text@[i as int]@) == text.deep_view().subrange(from as int, i + 1));
        i += 1;
    }
    out
}

/// Record the current state into the raw report
pub fn record(raw: &mut RawReport, config: &Configuration, state: &State) -> (accepted: bool)
    ensures
        accepted == accepts(config@, state@),
        final(raw)@ == recorded(old(raw)@, config@, state@),
{
    let scopes = config.scopes.as_slice();
    let categories = config.categories.as_slice();
    let scope = report_title(scopes, &state.scope);
    let category = report_title(categories, &state.category);
    let first = filled_from(&state.text);
    match (scope, category) {
        (Some(scope), Some(category)) => {
            if first < state.text.len() {
                let ghost before = raw@;
                let entry = Entry {
                    scope,
                    category,
                    opening: with_buffer(&state.text[first]),
                    rest: copy_from(&state.text, first + 1),
                };
                assert(state.text.deep_view()[first as int] == state.text@[first as int]@);
                raw.entries.push(entry);
                assert(raw@ =~= before.push(entry_of(config@, state@, before.len() + 1)));
                true
            } else {
                false
            }
        },
        _ => false,
    }
}

/// The first pass - walks through commits and gathers scopes and categories.
pub fn first_pass(config: &Configuration, commits: &[Commit]) -> (raw: RawReport)
    ensures
        raw@ == raw_report_of(config@, commits.deep_view()),
{
    let mut raw = RawReport::new();
    let ghost target = raw_report_of(config@, commits.deep_view());
    let mut i: usize = 0;
    assert(commits.deep_view().skip(0) == commits.deep_view());
    while i < commits.len()
        invariant
            i <= commits.len(),
            target == gathered(raw@, config@, commits.deep_view().skip(i as int)),
        decreases commits.len() - i,
    {
        let ghost left = commits.deep_view().skip(i as int);
        assert(left[0] == commits@[i as int]@);
        assert(left.drop_first() == commits.deep_view().skip(i + 1));
        let all = changes(commits[i].lines());
        let ghost todo = all.deep_view();
        let mut k: usize = 0;
        assert(todo.skip(0) == todo);
        while k < all.len()
            invariant
                k <= all.len(),
                all.deep_view() == todo,
                target == gathered(
                    recorded_all(raw@, config@, todo.skip(k as int)),
                    config@,
                    left.drop_first(),
                ),
            decreases all.len() - k,
        {
            let ghost rest = todo.skip(k as int);
            assert(rest[0] == all@[k as int]@);
            assert(rest.drop_first() == todo.skip(k + 1));
            record(&mut raw, config, &all[k]);
            k += 1;
        }
        i += 1;
    }
    raw
}

/// One of the tags has the title.
pub open spec fn has_title(tags: Seq<TagView>, title: Seq<char>) -> bool {
    exists|j: int| 0 <= j < tags.len() && (#[trigger] tags[j]).title == title
}

/// The recorded changes that are filed under the two titles, in the order
/// in which they were recorded.
pub open spec fn changes_in(raw: Seq<EntryView>, scope: Seq<char>, category: Seq<char>) -> Seq<
    TextView,
>
    decreases raw.len(),
{
    if raw.len() == 0 {
        Seq::empty()
    } else {
        let before = changes_in(raw.drop_last(), scope, category);
        if raw.last().scope == scope && raw.last().category == category {
            before.push(raw.last().text)
        } else {
            before
        }
    }
}

/// The categories of one scope: one for each title among `tags` under which
/// the scope has changes, in the order of `tags`, a title that occurs again
/// being passed over.
pub open spec fn categories_in(raw: Seq<EntryView>, tags: Seq<TagView>, scope: Seq<char>) -> Seq<
    CategoryView,
>
    decreases tags.len(),
{
    if tags.len() == 0 {
        Seq::empty()
    } else {
        let before = categories_in(raw, tags.drop_last(), scope);
        let title = tags.last().title;
        let found = changes_in(raw, scope, title);
        if !has_title(tags.drop_last(), title) && found.len() > 0 {
            before.push(CategoryView { title: title, changes: found })
        } else {
            before
        }
    }
}

/// The scopes of a report: one for each title among `tags` that has a
/// category with changes, in the order of `tags`, a title that occurs again
/// being passed over.
pub open spec fn scopes_in(raw: Seq<EntryView>, tags: Seq<TagView>, categories: Seq<TagView>) -> Seq<
    ScopeView,
>
    decreases tags.len(),
{
    if tags.len() == 0 {
        Seq::empty()
    } else {
        let before = scopes_in(raw, tags.drop_last(), categories);
        let title = tags.last().title;
        let found = categories_in(raw, categories, title);
        if !has_title(tags.drop_last(), title) && found.len() > 0 {
            before.push(ScopeView { title: title, categories: found })
        } else {
            before
        }
    }
}

/// The sections of the final report for the recorded changes.
pub open spec fn sections(raw: Seq<EntryView>, config: ConfigurationView) -> Seq<ScopeView> {
    scopes_in(raw, config.scopes, config.categories)
}

/// The final report for a list of commits.
pub open spec fn report_of(config: ConfigurationView, commits: Seq<CommitView>) -> ReportView {
    ReportView { scopes: sections(raw_report_of(config, commits), config), commits: commits }
}

/// Whether one of the first `n` tags has the title.
fn titled(tags: &Vec<Tag>, n: usize, title: &String) -> (b: bool)
    requires
        n <= tags.len(),
    ensures
        b == has_title(tags.deep_view().take(n as int), title@),
{
    let ghost seen = tags.deep_view().take(n as int);
    let mut j: usize = 0;
    while j < n
        invariant
            j <= n <= tags.len(),
            seen == tags.deep_view().take(n as int),
            forall|k: int| 0 <= k < j ==> (#[trigger] seen[k]).title != title@,
        decreases n - j,
    {
        assert(seen[j as int] == tags@[j as int]@);
        if tags[j].title == *title {
            return true;
        }
        j += 1;
    }
    false
}

/// The description of the entry at position `i` of the raw report.
fn text_at(report: &RawReport, i: usize) -> (out: Text)
    requires
        i < report@.len(),
    ensures
        out@ == report@[i as int].text,
{
    let entry = &report.entries[i];
    let rest = copy_from(&entry.rest, 0);
    assert(entry.rest.deep_view().skip(0) == entry.rest.deep_view());
    let count = report.entries.len();
    assert(i < count <= usize::MAX <= u64::MAX);
    Text { sequence: i as u64 + 1, opening: entry.opening.clone(), rest }
}

/// The recorded changes that are filed under the two titles.
fn changes_for(report: &RawReport, scope: &String, category: &String) -> (out: Vec<Text>)
    ensures
        out.deep_view() == changes_in(report@, scope@, category@),
{
    let mut out: Vec<Text> = Vec::new();
    let mut i: usize = 0;
    while i < report.entries.len()
        invariant
            i <= report.entries.len(),
            out.deep_view() == changes_in(report@.take(i as int), scope@, category@),
        decreases report.entries.len() - i,
    {
        let entry = &report.entries[i];
        assert(report@.take(i + 1).drop_last() == report@.take(i as int));
        if entry.scope == *scope && entry.category == *category {
            out.push(text_at(report, i));
        }
        i += 1;
    }
    assert(report@.take(i as int) == report@);
    out
}

/// The categories of one scope, in the order of the configuration.
fn categories_for(config: &Configuration, report: &RawReport, scope: &String) -> (out: Vec<
    Category,
>)
    ensures
        out.deep_view() == categories_in(report@, config@.categories, scope@),
{
    let mut out: Vec<Category> = Vec::new();
    let ghost tags = config@.categories;
    let mut i: usize = 0;
    while i < config.categories.len()
        invariant
            i <= config.categories.len(),
            tags == config.categories.deep_view(),
            out.deep_view() == categories_in(report@, tags.take(i as int), scope@),
        decreases config.categories.len() - i,
    {
        let tag = &config.categories[i];
        assert(tags.take(i + 1).drop_last() == tags.take(i as int));
        if !titled(&config.categories, i, &tag.title) {
            let changes = changes_for(report, scope, &tag.title);
            if changes.len() > 0 {
                out.push(Category { title: tag.title.clone(), changes });
            }
        }
        i += 1;
    }
    assert(tags.take(i as int) == tags);
    out
}

/// The second pass takes the raw report and orders things as we want to show them
pub fn second_pass(config: &Configuration, report: &RawReport) -> (scopes: Vec<Scope>)
    ensures
        scopes.deep_view() == sections(report@, config@),
        ascending(scopes.deep_view()),
{
    let mut scopes: Vec<Scope> = Vec::new();
    let ghost tags = config@.scopes;
    let mut i: usize = 0;
    while i < config.scopes.len()
        invariant
            i <= config.scopes.len(),
            tags == config.scopes.deep_view(),
            scopes.deep_view() == scopes_in(report@, tags.take(i as int), config@.categories),
        decreases config.scopes.len() - i,
    {
        let tag = &config.scopes[i];
        assert(tags.take(i + 1).drop_last() == tags.take(i as int));
        if !titled(&config.scopes, i, &tag.title) {
            let categories = categories_for(config, report, &tag.title);
            if categories.len() > 0 {
                scopes.push(Scope { title: tag.title.clone(), categories });
            }
        }
        i += 1;
    }
    assert(tags.take(i as int) == tags);
    proof {
        report.lemma_numbered();
        crate::layout::lemma_sections_complete(report@, config@, Seq::empty());
    }
    scopes
}

/// Generate a new report for the commits with the given configuration
pub fn generate<'a>(config: &'a Configuration, commits: &'a [Commit]) -> (report: Report<'a>)
    ensures
        report@ == report_of(config@, commits.deep_view()),
        ascending(report@.scopes),
{
    let raw_report = first_pass(config, commits);
    let scopes = second_pass(config, &raw_report);
    Report { commits, scopes }
}

} // verus!
