//! The categorized change log of a list of commits.
//!
//! Every commit is offered to a raw report, which files the changes that
//! its message describes under the titles of their scope and category. The
//! change log then shows the filed changes in the order in which the
//! conventions declare the scopes and the categories, and keeps the commits
//! that had a change to file.

use crate::change::text_or_empty;
use crate::commit::{message_lines, reversed, Commit, CommitView};
use crate::input::{title_of, titles_of, views, Configuration, Conventions, ConventionsView};
use crate::line::{blank_line, copy_option, option_view, Line, LineView};
use crate::text::{join, joined, same};
use chrono::{DateTime, Datelike, NaiveDate, Utc};
use vstd::prelude::*;
use vstd::string::StringExecFns;

verus! {

/// Changes grouped by categories (e.g. "Fixes", "Breaking Changes", etc.).
#[derive(Debug, PartialEq, Eq)]
pub struct Category {
    /// The title of the category, as defined in the conventions.
    pub title: String,
    /// A list of changes in this category groups across all commits in range.
    pub changes: Vec<String>,
}

/// What a `Category` holds.
pub struct CategoryView {
    pub title: Seq<char>,
    pub changes: Seq<Seq<char>>,
}

impl View for Category {
    type V = CategoryView;

    open spec fn view(&self) -> CategoryView {
        CategoryView { title: self.title@, changes: self.changes.deep_view() }
    }
}

impl DeepView for Category {
    type V = CategoryView;

    open spec fn deep_view(&self) -> CategoryView {
        self@
    }
}

/// Changes grouped by scope (e.g. "API", "Documentation", etc.).
#[derive(Debug, PartialEq, Eq)]
pub struct Scope {
    /// The title of the scope, as defined in the conventions.
    pub title: String,
    /// A list of categorized changes in this scope
    pub categories: Vec<Category>,
}

/// What a `Scope` holds.
pub struct ScopeView {
    pub title: Seq<char>,
    pub categories: Seq<CategoryView>,
}

impl View for Scope {
    type V = ScopeView;

    open spec fn view(&self) -> ScopeView {
        ScopeView { title: self.title@, categories: self.categories.deep_view() }
    }
}

impl DeepView for Scope {
    type V = ScopeView;

    open spec fn deep_view(&self) -> ScopeView {
        self@
    }
}

/// A categorized changelog
#[derive(Debug, PartialEq, Eq)]
pub struct ChangeLog {
    /// A list of scoped changes in the commit range.
    pub scopes: Vec<Scope>,
    /// A list of "interesting" commits in the range.
    pub commits: Vec<Commit>,
    /// The fetch url of the remote (useful for change number links)
    pub remote_url: Option<String>,
    /// The revision range for commits in this changelog
    pub range: String,
    /// The date of the last commit in this changelog
    pub date: String,
}

/// What a `ChangeLog` holds.
pub struct ChangeLogView {
    pub scopes: Seq<ScopeView>,
    pub commits: Seq<CommitView>,
    pub remote_url: Option<Seq<char>>,
    pub range: Seq<char>,
    pub date: Seq<char>,
}

impl View for ChangeLog {
    type V = ChangeLogView;

    open spec fn view(&self) -> ChangeLogView {
        ChangeLogView {
            scopes: self.scopes.deep_view(),
            commits: self.commits.deep_view(),
            remote_url: option_view(self.remote_url),
            range: self.range@,
            date: self.date@,
        }
    }
}

impl Default for Category {
    fn default() -> (category: Category)
        ensures
            category@ == (CategoryView { title: Seq::empty(), changes: Seq::empty() }),
    {
        let category = Category { title: String::new(), changes: Vec::new() };
        assert(category.changes.deep_view() == Seq::<Seq<char>>::empty());
        category
    }
}

impl Default for Scope {
    fn default() -> (scope: Scope)
        ensures
            scope@ == (ScopeView { title: Seq::empty(), categories: Seq::empty() }),
    {
        let scope = Scope { title: String::new(), categories: Vec::new() };
        assert(scope.categories.deep_view() == Seq::<CategoryView>::empty());
        scope
    }
}

impl Default for ChangeLog {
    fn default() -> (log: ChangeLog)
        ensures
            log@ == (ChangeLogView {
                scopes: Seq::empty(),
                commits: Seq::empty(),
                remote_url: None,
                range: Seq::empty(),
                date: Seq::empty(),
            }),
    {
        let log = ChangeLog {
            scopes: Vec::new(),
            commits: Vec::new(),
            remote_url: None,
            range: String::new(),
            date: String::new(),
        };
        assert(log.scopes.deep_view() == Seq::<ScopeView>::empty());
        assert(log.commits.deep_view() == Seq::<CommitView>::empty());
        log
    }
}

/// The day on which a time written as in RFC 2822 falls in UTC, by its
/// number in the calendar, in which the first of January of the year 1 is
/// day 1; nothing where the time is not written so.
pub uninterp spec fn utc_day(time: Seq<char>) -> Option<int>;

/// A day, counted as by `utc_day`, written as year, month and day with
/// hyphens between them; for a day beyond the calendar, the earliest day of
/// the calendar written so.
pub uninterp spec fn day_text(day: int) -> Seq<char>;

/// `DateTime::parse_from_rfc2822` of the crate chrono, the time it gives
/// taken to UTC and reduced to the number of its day. The contract claims
/// only that the outcome is determined by the text: it is the value that
/// `utc_day` names.
#[verifier::external_body]
fn day_of(time: &str) -> (day: Option<i32>)
    ensures
        day_view(day) == utc_day(time@),
{
    match DateTime::parse_from_rfc2822(time) {
        Ok(parsed) => Some(parsed.with_timezone(&Utc).date_naive().num_days_from_ce()),
        Err(_) => None,
    }
}

/// `NaiveDate::format` of the crate chrono with the format `%Y-%m-%d`, on
/// the date that `NaiveDate::from_num_days_from_ce_opt` gives for the day,
/// or on `NaiveDate::MIN` where it gives none. The contract claims only
/// that the outcome is determined by the day: it is the value that
/// `day_text` names.
#[verifier::external_body]
fn format_day(day: i32) -> (text: String)
    ensures
        text@ == day_text(day as int),
{
    let date = match NaiveDate::from_num_days_from_ce_opt(day) {
        Some(date) => date,
        None => NaiveDate::MIN,
    };
    date.format("%Y-%m-%d").to_string()
}

/// The day that is written where no commit has a time: the least number,
/// which lies before every day of the calendar.
pub const NO_DAY: i32 = i32::MIN;

/// The day that is written for the latest day of a change log.
pub open spec fn written_day(latest: Option<int>) -> int {
    match latest {
        Some(day) => day,
        None => NO_DAY as int,
    }
}

/// The day to write for the latest day of a change log.
pub fn day_to_write(latest: Option<i32>) -> (day: i32)
    ensures
        day as int == written_day(day_view(latest)),
{
    match latest {
        Some(day) => day,
        None => NO_DAY,
    }
}

/// The later of two days; a day is later than none.
pub open spec fn later(a: Option<int>, b: Option<int>) -> Option<int> {
    match (a, b) {
        (Some(x), Some(y)) => if y > x {
            b
        } else {
            a
        },
        (None, _) => b,
        (_, None) => a,
    }
}

/// The view of a day that may be missing.
pub open spec fn day_view(day: Option<i32>) -> Option<int> {
    match day {
        Some(d) => Some(d as int),
        None => None,
    }
}

/// The later of two days; a day is later than none.
pub fn later_day(latest: Option<i32>, day: Option<i32>) -> (out: Option<i32>)
    ensures
        day_view(out) == later(day_view(latest), day_view(day)),
{
    match (latest, day) {
        (Some(x), Some(y)) => if y > x {
            day
        } else {
            latest
        },
        (None, _) => day,
        (_, None) => latest,
    }
}

/// The latest day among the times of the commits.
pub open spec fn latest_day(commits: Seq<CommitView>) -> Option<int>
    decreases commits.len(),
{
    if commits.len() == 0 {
        None
    } else {
        later(latest_day(commits.drop_last()), utc_day(commits.last().time))
    }
}

/// The change in progress once `line` has been read: a line with a category
/// begins a new one, the first text read becomes its text, and any line
/// after that adds a line feed and its own text.
pub open spec fn grown(current: LineView, line: LineView) -> LineView {
    let scope = if line.category is Some {
        line.scope
    } else {
        current.scope
    };
    let category = if line.category is Some {
        line.category
    } else {
        current.category
    };
    let text = if line.category is Some {
        None
    } else {
        current.text
    };
    LineView {
        scope: scope,
        category: category,
        text: match text {
            None => line.text,
            Some(t) => Some(t + seq!['\n'] + text_or_empty(line)),
        },
    }
}

/// The changes that `lines` describe when `current` is in progress, each
/// with its text in one piece.
pub open spec fn blocks_from(lines: Seq<LineView>, current: LineView) -> Seq<LineView>
    decreases lines.len(),
{
    if lines.len() == 0 {
        seq![current]
    } else if lines[0].category is Some {
        seq![current] + blocks_from(lines.drop_first(), grown(current, lines[0]))
    } else {
        blocks_from(lines.drop_first(), grown(current, lines[0]))
    }
}

/// The changes that the lines of one commit message describe, in order.
pub open spec fn blocks_of(lines: Seq<LineView>) -> Seq<LineView> {
    blocks_from(lines, blank_line())
}

/// A filed change: the titles it stands under, and its text.
pub struct SlotView {
    pub scope: Seq<char>,
    pub category: Seq<char>,
    pub text: Seq<char>,
}

#[derive(Debug)]
struct Slot {
    scope: String,
    category: String,
    text: String,
}

impl View for Slot {
    type V = SlotView;

    closed spec fn view(&self) -> SlotView {
        SlotView { scope: self.scope@, category: self.category@, text: self.text@ }
    }
}

impl DeepView for Slot {
    type V = SlotView;

    closed spec fn deep_view(&self) -> SlotView {
        self@
    }
}

/// A change is filed where the conventions give its scope and its category
/// a title and it has text.
pub open spec fn files(conventions: ConventionsView, block: LineView) -> bool {
    title_of(conventions.scopes, block.scope) is Some && title_of(
        conventions.categories,
        block.category,
    ) is Some && block.text is Some
}

/// The filed changes once `block` has been offered: it is added at the end
/// where it is filed.
pub open spec fn filed(slots: Seq<SlotView>, conventions: ConventionsView, block: LineView) -> Seq<
    SlotView,
> {
    if files(conventions, block) {
        slots.push(
            SlotView {
                scope: title_of(conventions.scopes, block.scope)->0,
                category: title_of(conventions.categories, block.category)->0,
                text: block.text->0,
            },
        )
    } else {
        slots
    }
}

/// The filed changes once the changes `blocks` have been offered in order.
pub open spec fn filed_all(
    slots: Seq<SlotView>,
    conventions: ConventionsView,
    blocks: Seq<LineView>,
) -> Seq<SlotView>
    decreases blocks.len(),
{
    if blocks.len() == 0 {
        slots
    } else {
        filed_all(filed(slots, conventions, blocks[0]), conventions, blocks.drop_first())
    }
}

/// One of the changes is filed.
pub open spec fn any_filed(conventions: ConventionsView, blocks: Seq<LineView>) -> bool {
    exists|i: int| 0 <= i < blocks.len() && files(conventions, #[trigger] blocks[i])
}

/// A commit is interesting where one of the changes that its message
/// describes is filed.
pub open spec fn interesting(conventions: ConventionsView, commit: CommitView) -> bool {
    any_filed(conventions, blocks_of(message_lines(commit.message)))
}

/// The filed changes once the commits have been offered in order.
pub open spec fn collected(
    slots: Seq<SlotView>,
    conventions: ConventionsView,
    commits: Seq<CommitView>,
) -> Seq<SlotView>
    decreases commits.len(),
{
    if commits.len() == 0 {
        slots
    } else {
        collected(
            filed_all(slots, conventions, blocks_of(message_lines(commits[0].message))),
            conventions,
            commits.drop_first(),
        )
    }
}

/// The interesting ones among the commits, in their order.
pub open spec fn kept(conventions: ConventionsView, commits: Seq<CommitView>) -> Seq<CommitView>
    decreases commits.len(),
{
    if commits.len() == 0 {
        Seq::empty()
    } else if interesting(conventions, commits.last()) {
        kept(conventions, commits.drop_last()).push(commits.last())
    } else {
        kept(conventions, commits.drop_last())
    }
}

/// The texts filed under the two titles, in the order in which they were
/// filed.
pub open spec fn texts_in(slots: Seq<SlotView>, scope: Seq<char>, category: Seq<char>) -> Seq<
    Seq<char>,
>
    decreases slots.len(),
{
    if slots.len() == 0 {
        Seq::empty()
    } else {
        let before = texts_in(slots.drop_last(), scope, category);
        if slots.last().scope == scope && slots.last().category == category {
            before.push(slots.last().text)
        } else {
            before
        }
    }
}

/// The categories of one scope: one for each of the titles under which the
/// scope has changes, in the order of the titles, a title that occurs again
/// being passed over.
pub open spec fn categories_in(slots: Seq<SlotView>, titles: Seq<Seq<char>>, scope: Seq<char>) -> Seq<
    CategoryView,
>
    decreases titles.len(),
{
    if titles.len() == 0 {
        Seq::empty()
    } else {
        let before = categories_in(slots, titles.drop_last(), scope);
        let found = texts_in(slots, scope, titles.last());
        if !titles.drop_last().contains(titles.last()) && found.len() > 0 {
            before.push(CategoryView { title: titles.last(), changes: found })
        } else {
            before
        }
    }
}

/// The scopes of a change log: one for each of the titles that has a
/// category with changes, in the order of the titles, a title that occurs
/// again being passed over.
pub open spec fn scopes_in(
    slots: Seq<SlotView>,
    titles: Seq<Seq<char>>,
    categories: Seq<Seq<char>>,
) -> Seq<ScopeView>
    decreases titles.len(),
{
    if titles.len() == 0 {
        Seq::empty()
    } else {
        let before = scopes_in(slots, titles.drop_last(), categories);
        let found = categories_in(slots, categories, titles.last());
        if !titles.drop_last().contains(titles.last()) && found.len() > 0 {
            before.push(ScopeView { title: titles.last(), categories: found })
        } else {
            before
        }
    }
}

/// The change log of a list of commits under the conventions.
pub open spec fn changelog_of(
    conventions: ConventionsView,
    commits: Seq<CommitView>,
    remote_url: Option<Seq<char>>,
) -> ChangeLogView {
    ChangeLogView {
        scopes: scopes_in(
            collected(Seq::empty(), conventions, commits),
            titles_of(conventions.scopes),
            titles_of(conventions.categories),
        ),
        commits: kept(conventions, commits),
        remote_url: remote_url,
        range: Seq::empty(),
        date: day_text(written_day(latest_day(commits))),
    }
}

/// Filing the changes of a list leaves the filed changes as they were
/// exactly where none of the changes is filed.
pub proof fn lemma_filed_all(slots: Seq<SlotView>, conventions: ConventionsView, blocks: Seq<LineView>)
    ensures
        filed_all(slots, conventions, blocks).len() >= slots.len(),
        !any_filed(conventions, blocks) ==> filed_all(slots, conventions, blocks) == slots,
        any_filed(conventions, blocks) ==> filed_all(slots, conventions, blocks).len() > slots.len(),
    decreases blocks.len(),
{
    if blocks.len() > 0 {
        let rest = blocks.drop_first();
        lemma_filed_all(filed(slots, conventions, blocks[0]), conventions, rest);
        if any_filed(conventions, blocks) {
            let i = choose|i: int| 0 <= i < blocks.len() && files(conventions, #[trigger] blocks[i]);
            if i > 0 {
                assert(rest[i - 1] == blocks[i]);
            }
        } else {
            assert(!files(conventions, blocks[0]));
            assert forall|i: int| 0 <= i < rest.len() implies !files(conventions, #[trigger] rest[i]) by {
                assert(rest[i] == blocks[i + 1]);
            }
        }
    }
}

/// Raw report
pub struct RawReport {
    /// The day of the last change in the range
    latest: Option<i32>,
    /// The filed changes
    slots: Vec<Slot>,
}

impl RawReport {
    /// The changes filed so far, in the order in which they were filed.
    pub closed spec fn slots(&self) -> Seq<SlotView> {
        self.slots.deep_view()
    }

    /// The latest day among the times of the commits offered so far.
    pub closed spec fn latest(&self) -> Option<int> {
        day_view(self.latest)
    }

    /// Initialize a new report
    pub fn new() -> (raw: RawReport)
        ensures
            raw.slots() == Seq::<SlotView>::empty(),
            raw.latest() is None,
    {
        RawReport { latest: None, slots: Vec::new() }
    }

    /// Add the given commit to the report with the given conventions
    pub fn add(&mut self, commit: &Commit, conventions: &Conventions) -> (interesting_commit: bool)
        ensures
            interesting_commit == interesting(conventions@, commit@),
            final(self).slots() == filed_all(
                old(self).slots(),
                conventions@,
                blocks_of(message_lines(commit@.message)),
            ),
            final(self).latest() == later(old(self).latest(), utc_day(commit@.time)),
    {
        let lines = commit.lines();
        let mut interesting_commit = false;
        let mut current = Line::default();
        let ghost all = blocks_of(lines.deep_view());
        let ghost start = self.slots();
        let ghost done: Seq<LineView> = Seq::empty();
        let mut i: usize = 0;
        proof {
            assert(lines.deep_view().skip(0) == lines.deep_view());
        }
        while i < lines.len()
            invariant
                i <= lines.len(),
                all == blocks_of(lines.deep_view()),
                all == done + blocks_from(lines.deep_view().skip(i as int), current@),
                self.slots() == filed_all(start, conventions@, done),
                interesting_commit == any_filed(conventions@, done),
                self.latest() == old(self).latest(),
            decreases lines.len() - i,
        {
            let line = &lines[i];
            let ghost left = lines.deep_view().skip(i as int);
            let ghost was = current@;
            proof {
                assert(left.drop_first() == lines.deep_view().skip(i + 1));
            }
            if line.category.is_some() {
                proof {
                    lemma_filed_push(start, conventions@, done, was);
                    lemma_any_filed_push(conventions@, done, was);
                    done = done.push(was);
                }
                let accepted = self.record(current, conventions);
                interesting_commit = interesting_commit || accepted;
                current =
                Line {
                    scope: copy_option(&line.scope),
                    category: copy_option(&line.category),
                    text: None,
                };
            }
            let Line { scope, category, text } = current;
            let text = match text {
                None => copy_option(&line.text),
                Some(mut text) => {
                    let ghost start_text = text@;
                    text.push('\n');
                    match &line.text {
                        Some(more) => {
                            text.append(more.as_str());
                        },
                        None => {},
                    }
                    assert(text@ =~= start_text + seq!['\n'] + text_or_empty(line@));
                    Some(text)
                },
            };
            current = Line { scope, category, text };
            i += 1;
        }
        proof {
            lemma_filed_push(start, conventions@, done, current@);
            lemma_any_filed_push(conventions@, done, current@);
            assert(done.push(current@) == done + seq![current@]);
        }
        let accepted = self.record(current, conventions);
        interesting_commit = interesting_commit || accepted;
        self.latest = later_day(self.latest, day_of(commit.time.as_str()));
        interesting_commit
    }

    /// Record the current line into the report
    pub fn record(&mut self, current: Line, conventions: &Conventions) -> (interesting_change: bool)
        ensures
            interesting_change == files(conventions@, current@),
            final(self).slots() == filed(old(self).slots(), conventions@, current@),
            final(self).latest() == old(self).latest(),
    {
        let Line { scope, category, text } = current;
        let scope_title = conventions.scope_title(scope);
        let category_title = conventions.category_title(category);
        match (scope_title, category_title, text) {
            (Some(scope_title), Some(category_title), Some(text)) => {
                self.slots.push(
                    Slot {
                        scope: scope_title.to_owned(),
                        category: category_title.to_owned(),
                        text,
                    },
                );
                true
            },
            _ => false,
        }
    }
}

/// Offering one more change files it after the others.
proof fn lemma_filed_push(
    slots: Seq<SlotView>,
    conventions: ConventionsView,
    done: Seq<LineView>,
    block: LineView,
)
    ensures
        filed_all(slots, conventions, done.push(block)) == filed(
            filed_all(slots, conventions, done),
            conventions,
            block,
        ),
    decreases done.len(),
{
    let all = done.push(block);
    if done.len() == 0 {
        assert(all.drop_first() == done);
        assert(filed_all(filed(slots, conventions, block), conventions, done) == filed(
            slots,
            conventions,
            block,
        ));
    } else {
        assert(all.drop_first() == done.drop_first().push(block));
        lemma_filed_push(filed(slots, conventions, done[0]), conventions, done.drop_first(), block);
    }
}

/// One of the changes offered is filed where one of the earlier ones was,
/// or the last one is.
proof fn lemma_any_filed_push(conventions: ConventionsView, done: Seq<LineView>, block: LineView)
    ensures
        any_filed(conventions, done.push(block)) == (any_filed(conventions, done) || files(
            conventions,
            block,
        )),
{
    let all = done.push(block);
    if any_filed(conventions, done) {
        let i = choose|i: int| 0 <= i < done.len() && files(conventions, #[trigger] done[i]);
        assert(all[i] == done[i]);
    }
    if files(conventions, block) {
        assert(all[done.len() as int] == block);
    }
    if any_filed(conventions, all) {
        let i = choose|i: int| 0 <= i < all.len() && files(conventions, #[trigger] all[i]);
        if i < done.len() {
            assert(all[i] == done[i]);
        }
    }
}

/// The texts filed under the two titles.
fn texts_for(raw: &RawReport, scope: &str, category: &str) -> (out: Vec<String>)
    ensures
        out.deep_view() == texts_in(raw.slots(), scope@, category@),
{
    let mut out: Vec<String> = Vec::new();
    let ghost slots = raw.slots();
    let mut i: usize = 0;
    while i < raw.slots.len()
        invariant
            i <= raw.slots.len(),
            slots == raw.slots(),
            out.deep_view() == texts_in(slots.take(i as int), scope@, category@),
        decreases raw.slots.len() - i,
    {
        let slot = &raw.slots[i];
        assert(slots.take(i + 1).drop_last() == slots.take(i as int));
        if same(slot.scope.as_str(), scope) && same(slot.category.as_str(), category) {
            out.push(slot.text.clone());
        }
        i += 1;
    }
    assert(slots.take(i as int) == slots);
    out
}

/// Whether the title is among the first `n` titles.
fn seen(titles: &Vec<&str>, n: usize, title: &str) -> (b: bool)
    requires
        n <= titles.len(),
    ensures
        b == views(titles@).take(n as int).contains(title@),
{
    let ghost before = views(titles@).take(n as int);
    let mut j: usize = 0;
    while j < n
        invariant
            j <= n <= titles.len(),
            before == views(titles@).take(n as int),
            forall|k: int| 0 <= k < j ==> before[k] != title@,
        decreases n - j,
    {
        assert(before[j as int] == titles@[j as int]@);
        if same(titles[j], title) {
            return true;
        }
        j += 1;
    }
    false
}

/// The categories of one scope, in the order of the titles.
fn categories_for(raw: &RawReport, titles: &Vec<&str>, scope: &str) -> (out: Vec<Category>)
    ensures
        out.deep_view() == categories_in(raw.slots(), views(titles@), scope@),
{
    let mut out: Vec<Category> = Vec::new();
    let ghost all = views(titles@);
    let mut i: usize = 0;
    while i < titles.len()
        invariant
            i <= titles.len(),
            all == views(titles@),
            out.deep_view() == categories_in(raw.slots(), all.take(i as int), scope@),
        decreases titles.len() - i,
    {
        let title = titles[i];
        assert(all.take(i + 1).drop_last() == all.take(i as int));
        if !seen(titles, i, title) {
            let changes = texts_for(raw, scope, title);
            if changes.len() > 0 {
                out.push(Category { title: title.to_owned(), changes });
            }
        }
        i += 1;
    }
    assert(all.take(i as int) == all);
    out
}

/// The scopes of a change log, in the order of the titles.
fn scopes_for(raw: &RawReport, titles: &Vec<&str>, categories: &Vec<&str>) -> (out: Vec<Scope>)
    ensures
        out.deep_view() == scopes_in(raw.slots(), views(titles@), views(categories@)),
{
    let mut out: Vec<Scope> = Vec::new();
    let ghost all = views(titles@);
    let mut i: usize = 0;
    while i < titles.len()
        invariant
            i <= titles.len(),
            all == views(titles@),
            out.deep_view() == scopes_in(raw.slots(), all.take(i as int), views(categories@)),
        decreases titles.len() - i,
    {
        let title = titles[i];
        assert(all.take(i + 1).drop_last() == all.take(i as int));
        if !seen(titles, i, title) {
            let found = categories_for(raw, categories, title);
            if found.len() > 0 {
                out.push(Scope { title: title.to_owned(), categories: found });
            }
        }
        i += 1;
    }
    assert(all.take(i as int) == all);
    out
}

/// Offering the commits one by one from the start gives what offering all
/// of them gives.
proof fn lemma_collected_push(
    slots: Seq<SlotView>,
    conventions: ConventionsView,
    commits: Seq<CommitView>,
    commit: CommitView,
)
    ensures
        collected(slots, conventions, commits.push(commit)) == filed_all(
            collected(slots, conventions, commits),
            conventions,
            blocks_of(message_lines(commit.message)),
        ),
    decreases commits.len(),
{
    let all = commits.push(commit);
    if commits.len() == 0 {
        assert(all.drop_first() == commits);
        let next = filed_all(slots, conventions, blocks_of(message_lines(commit.message)));
        assert(collected(next, conventions, commits) == next);
    } else {
        assert(all.drop_first() == commits.drop_first().push(commit));
        lemma_collected_push(
            filed_all(slots, conventions, blocks_of(message_lines(commits[0].message))),
            conventions,
            commits.drop_first(),
            commit,
        );
    }
}

/// The range of commits that is shown where none is asked for: what has
/// come since the last tag, or the last commit where there is no tag.
pub open spec fn default_range(last_tag: Option<Seq<char>>) -> Seq<char> {
    match last_tag {
        Some(tag) => tag + seq!['.', '.', 'H', 'E', 'A', 'D'],
        None => seq!['H', 'E', 'A', 'D', '^', '.', '.', 'H', 'E', 'A', 'D'],
    }
}

/// The `git log` arguments that a change log is made for: those given, or
/// the default range where none is given.
pub open spec fn log_arguments(args: Seq<Seq<char>>, last_tag: Option<Seq<char>>) -> Seq<Seq<char>> {
    if args.len() == 0 {
        seq![default_range(last_tag)]
    } else {
        args
    }
}

impl ChangeLog {
    /// The `git log` arguments to make a change log for: the given ones, or
    /// the range since the last tag where none is given.
    pub fn log_arguments(args: Vec<String>, last_tag: Option<String>) -> (out: Vec<String>)
        ensures
            out.deep_view() == log_arguments(args.deep_view(), option_view(last_tag)),
    {
        let mut args = args;
        if args.len() == 0 {
            proof {
                reveal_strlit("..HEAD");
                reveal_strlit("HEAD^..HEAD");
                assert("..HEAD"@ =~= seq!['.', '.', 'H', 'E', 'A', 'D']);
                assert("HEAD^..HEAD"@ =~= seq![
                    'H',
                    'E',
                    'A',
                    'D',
                    '^',
                    '.',
                    '.',
                    'H',
                    'E',
                    'A',
                    'D',
                ]);
            }
            let range = match last_tag {
                Some(tag) => {
                    let mut range = tag;
                    range.append("..HEAD");
                    range
                },
                None => "HEAD^..HEAD".to_owned(),
            };
            args.push(range);
        }
        args
    }

    /// Create a changelog from the commits that the given `git log`
    /// arguments name
    pub fn from_log(
        args: &Vec<String>,
        commits: Vec<Commit>,
        config: &Configuration,
        remote_url: Option<String>,
    ) -> (log: ChangeLog)
        ensures
            log@ == (ChangeLogView {
                range: joined(args.deep_view(), seq![' ']),
                ..changelog_of(config@.conventions, commits.deep_view(), option_view(remote_url))
            }),
    {
        proof {
            reveal_strlit(" ");
            assert(" "@ =~= seq![' ']);
            assert(args.deep_view().skip(0) == args.deep_view());
        }
        let header = join(args, 0, " ");
        let mut log = Self::from(commits, config, remote_url);
        log.range = header;
        log
    }

    /// Generate a changelog for the commits of the given range
    pub fn from_range(
        range: &str,
        commits: Vec<Commit>,
        config: &Configuration,
        remote_url: Option<String>,
    ) -> (log: ChangeLog)
        ensures
            log@ == (ChangeLogView {
                range: range@,
                ..changelog_of(config@.conventions, commits.deep_view(), option_view(remote_url))
            }),
    {
        let mut args: Vec<String> = Vec::new();
        args.push(range.to_owned());
        Self::from_log(&args, commits, config, remote_url)
    }

    /// Create a changelog from the given commits using the given conventions
    pub fn from(commits: Vec<Commit>, config: &Configuration, remote_url: Option<String>) -> (log:
        ChangeLog)
        ensures
            log@ == changelog_of(config@.conventions, commits.deep_view(), option_view(remote_url)),
    {
        let ghost all = commits.deep_view();
        let ghost conventions = config@.conventions;
        let mut raw = RawReport::new();
        let mut interesting_commits: Vec<Commit> = Vec::new();
        // The commits are taken from the end, so turn them round first
        let mut rest = reversed(commits);
        let ghost done: Seq<CommitView> = Seq::empty();
        while rest.len() > 0
            invariant
                conventions == config@.conventions,
                done + rest.deep_view().reverse() == all,
                raw.slots() == collected(Seq::empty(), conventions, done),
                raw.latest() == latest_day(done),
                interesting_commits.deep_view() == kept(conventions, done),
            decreases rest.len(),
        {
            let commit = rest.pop().unwrap();
            proof {
                lemma_collected_push(Seq::empty(), conventions, done, commit@);
                assert(done.push(commit@).drop_last() == done);
                done = done.push(commit@);
            }
            if raw.add(&commit, &config.conventions) {
                interesting_commits.push(commit);
            }
        }
        let scope_titles = config.conventions.scope_titles();
        let category_titles = config.conventions.category_titles();
        let scopes = scopes_for(&raw, &scope_titles, &category_titles);
        ChangeLog {
            scopes,
            commits: interesting_commits,
            remote_url,
            range: String::new(),
            date: format_day(day_to_write(raw.latest)),
        }
    }
}

} // verus!
