//! What holds of every report: the order of its sections, that none stands
//! twice, that none is empty, and the order of the changes within them.

use crate::change::{changes_of, StateView};
use crate::commit::{message_lines, CommitView};
use crate::config::{interesting, ConfigurationView, TagView};
use crate::report::{
    accepts, categories_in, changes_in, gathered, has_title, numbered, raw_report_of, recorded,
    recorded_all, report_of, scopes_in, sections, EntryView, ReportView,
};
use vstd::prelude::*;

verus! {

/// The first position at or after `i` whose tag has the title, or the
/// number of tags.
pub open spec fn position_from(tags: Seq<TagView>, title: Seq<char>, i: int) -> int
    decreases tags.len() - i,
{
    if 0 <= i < tags.len() && tags[i].title != title {
        position_from(tags, title, i + 1)
    } else {
        i
    }
}

/// The position at which a vocabulary declares a title first, or the number
/// of its tags where it does not declare the title.
pub open spec fn position_of(tags: Seq<TagView>, title: Seq<char>) -> int {
    position_from(tags, title, 0)
}

/// The position found from `i` on is that of the first tag with the title.
proof fn lemma_position_from(tags: Seq<TagView>, title: Seq<char>, i: int)
    requires
        0 <= i <= tags.len(),
    ensures
        i <= position_from(tags, title, i) <= tags.len(),
        position_from(tags, title, i) < tags.len() ==> tags[position_from(tags, title, i)].title
            == title,
        forall|j: int| i <= j < position_from(tags, title, i) ==> (#[trigger] tags[j]).title != title,
    decreases tags.len() - i,
{
    if i < tags.len() && tags[i].title != title {
        lemma_position_from(tags, title, i + 1);
    }
}

/// The position of a title is that of the first tag that has it.
pub proof fn lemma_position_of(tags: Seq<TagView>, title: Seq<char>)
    ensures
        0 <= position_of(tags, title) <= tags.len(),
        position_of(tags, title) < tags.len() <==> has_title(tags, title),
        position_of(tags, title) < tags.len() ==> tags[position_of(tags, title)].title == title,
        forall|j: int| 0 <= j < position_of(tags, title) ==> (#[trigger] tags[j]).title != title,
{
    lemma_position_from(tags, title, 0);
}

/// A title that a vocabulary declares keeps its position when tags are
/// added behind; one that only the added tag declares stands last.
proof fn lemma_position_extended(tags: Seq<TagView>, title: Seq<char>)
    requires
        tags.len() > 0,
    ensures
        has_title(tags.drop_last(), title) ==> position_of(tags, title) == position_of(
            tags.drop_last(),
            title,
        ),
        !has_title(tags.drop_last(), title) && tags.last().title == title ==> position_of(
            tags,
            title,
        ) == tags.len() - 1,
{
    let front = tags.drop_last();
    lemma_position_of(tags, title);
    lemma_position_of(front, title);
    let p = position_of(tags, title);
    let q = position_of(front, title);
    if has_title(front, title) {
        assert(front[q] == tags[q]);
        if p < q {
            assert(front[p] == tags[p]);
        }
    } else if tags.last().title == title {
        if p < tags.len() - 1 {
            assert(front[p] == tags[p]);
        }
    }
}

/// The changes of a category are recorded changes, each with a sequence
/// number that the raw report has given out; they stand by rising sequence
/// number.
pub proof fn lemma_changes_sorted(raw: Seq<EntryView>, scope: Seq<char>, category: Seq<char>)
    requires
        numbered(raw),
    ensures
        forall|k: int|
            0 <= k < changes_in(raw, scope, category).len() ==> 1 <= (#[trigger] changes_in(
                raw,
                scope,
                category,
            )[k]).sequence <= raw.len(),
        forall|a: int, b: int|
            0 <= a < b < changes_in(raw, scope, category).len() ==> (#[trigger] changes_in(
                raw,
                scope,
                category,
            )[a]).sequence < (#[trigger] changes_in(raw, scope, category)[b]).sequence,
    decreases raw.len(),
{
    if raw.len() > 0 {
        let front = raw.drop_last();
        assert(numbered(front)) by {
            assert forall|i: int| 0 <= i < front.len() implies (#[trigger] front[i]).text.sequence
                == i + 1 by {
                assert(front[i] == raw[i]);
            }
        }
        lemma_changes_sorted(front, scope, category);
        let before = changes_in(front, scope, category);
        let all = changes_in(raw, scope, category);
        assert forall|k: int| 0 <= k < all.len() implies 1 <= (#[trigger] all[k]).sequence
            <= raw.len() by {
            if k < before.len() {
                assert(all[k] == before[k]);
            }
        }
        assert forall|a: int, b: int| 0 <= a < b < all.len() implies (#[trigger] all[a]).sequence < (
        #[trigger] all[b]).sequence by {
            assert(all[a] == before[a]);
            if b < before.len() {
                assert(all[b] == before[b]);
            }
        }
    }
}

/// A category holds the changes that were recorded under its scope and its
/// title, all of them: there are as many as there are such entries, and
/// there is one at least where there is such an entry.
pub proof fn lemma_changes_present(raw: Seq<EntryView>, scope: Seq<char>, category: Seq<char>)
    ensures
        changes_in(raw, scope, category).len() > 0 <==> exists|i: int|
            0 <= i < raw.len() && (#[trigger] raw[i]).scope == scope && raw[i].category == category,
    decreases raw.len(),
{
    if raw.len() > 0 {
        let front = raw.drop_last();
        lemma_changes_present(front, scope, category);
        if changes_in(raw, scope, category).len() > 0 {
            if raw.last().scope == scope && raw.last().category == category {
                assert(raw[raw.len() - 1].scope == scope);
            } else {
                let i = choose|i: int|
                    0 <= i < front.len() && (#[trigger] front[i]).scope == scope
                        && front[i].category == category;
                assert(raw[i] == front[i]);
            }
        } else {
            assert forall|i: int| 0 <= i < raw.len() implies !((#[trigger] raw[i]).scope == scope
                && raw[i].category == category) by {
                if i < front.len() {
                    assert(raw[i] == front[i]);
                }
            }
        }
    }
}

/// The categories of a scope stand in the order in which the vocabulary
/// declares their titles: each title is declared, and a category that
/// stands before another is declared before it. So no title stands twice.
pub proof fn lemma_categories_in_declared_order(
    raw: Seq<EntryView>,
    tags: Seq<TagView>,
    scope: Seq<char>,
)
    ensures
        forall|k: int|
            0 <= k < categories_in(raw, tags, scope).len() ==> position_of(
                tags,
                (#[trigger] categories_in(raw, tags, scope)[k]).title,
            ) < tags.len(),
        forall|a: int, b: int|
            0 <= a < b < categories_in(raw, tags, scope).len() ==> position_of(
                tags,
                (#[trigger] categories_in(raw, tags, scope)[a]).title,
            ) < position_of(tags, (#[trigger] categories_in(raw, tags, scope)[b]).title),
    decreases tags.len(),
{
    if tags.len() > 0 {
        let front = tags.drop_last();
        lemma_categories_in_declared_order(raw, front, scope);
        let before = categories_in(raw, front, scope);
        let all = categories_in(raw, tags, scope);
        assert forall|k: int| 0 <= k < all.len() implies position_of(tags, (#[trigger] all[k]).title)
            < tags.len() && (k < before.len() ==> position_of(tags, all[k].title) < front.len()) by {
            lemma_position_extended(tags, all[k].title);
            if k < before.len() {
                assert(all[k] == before[k]);
                lemma_position_of(front, before[k].title);
            }
        }
        assert forall|a: int, b: int| 0 <= a < b < all.len() implies position_of(
            tags,
            (#[trigger] all[a]).title,
        ) < position_of(tags, (#[trigger] all[b]).title) by {
            assert(all[a] == before[a]);
            lemma_position_extended(tags, all[a].title);
            lemma_position_extended(tags, all[b].title);
            lemma_position_of(front, all[a].title);
            if b < before.len() {
                assert(all[b] == before[b]);
                lemma_position_of(front, all[b].title);
            }
        }
    }
}

/// The scopes of a report stand in the order in which the vocabulary
/// declares their titles: each title is declared, and a scope that stands
/// before another is declared before it. So no title stands twice.
pub proof fn lemma_scopes_in_declared_order(
    raw: Seq<EntryView>,
    tags: Seq<TagView>,
    categories: Seq<TagView>,
)
    ensures
        forall|k: int|
            0 <= k < scopes_in(raw, tags, categories).len() ==> position_of(
                tags,
                (#[trigger] scopes_in(raw, tags, categories)[k]).title,
            ) < tags.len(),
        forall|a: int, b: int|
            0 <= a < b < scopes_in(raw, tags, categories).len() ==> position_of(
                tags,
                (#[trigger] scopes_in(raw, tags, categories)[a]).title,
            ) < position_of(tags, (#[trigger] scopes_in(raw, tags, categories)[b]).title),
    decreases tags.len(),
{
    if tags.len() > 0 {
        let front = tags.drop_last();
        lemma_scopes_in_declared_order(raw, front, categories);
        let before = scopes_in(raw, front, categories);
        let all = scopes_in(raw, tags, categories);
        assert forall|k: int| 0 <= k < all.len() implies position_of(tags, (#[trigger] all[k]).title)
            < tags.len() && (k < before.len() ==> position_of(tags, all[k].title) < front.len()) by {
            lemma_position_extended(tags, all[k].title);
            if k < before.len() {
                assert(all[k] == before[k]);
                lemma_position_of(front, before[k].title);
            }
        }
        assert forall|a: int, b: int| 0 <= a < b < all.len() implies position_of(
            tags,
            (#[trigger] all[a]).title,
        ) < position_of(tags, (#[trigger] all[b]).title) by {
            assert(all[a] == before[a]);
            lemma_position_extended(tags, all[a].title);
            lemma_position_extended(tags, all[b].title);
            lemma_position_of(front, all[a].title);
            if b < before.len() {
                assert(all[b] == before[b]);
                lemma_position_of(front, all[b].title);
            }
        }
    }
}

/// A scope has a category of a given title exactly where the vocabulary
/// declares the title and changes were recorded under the scope and the
/// title; the category then holds those changes.
pub proof fn lemma_category_present(
    raw: Seq<EntryView>,
    tags: Seq<TagView>,
    scope: Seq<char>,
    title: Seq<char>,
)
    ensures
        (exists|k: int|
            0 <= k < categories_in(raw, tags, scope).len() && (#[trigger] categories_in(
                raw,
                tags,
                scope,
            )[k]).title == title) <==> has_title(tags, title) && changes_in(raw, scope, title).len()
            > 0,
        forall|k: int|
            0 <= k < categories_in(raw, tags, scope).len() ==> (#[trigger] categories_in(
                raw,
                tags,
                scope,
            )[k]).changes == changes_in(raw, scope, categories_in(raw, tags, scope)[k].title)
                && categories_in(raw, tags, scope)[k].changes.len() > 0,
    decreases tags.len(),
{
    let all = categories_in(raw, tags, scope);
    if tags.len() > 0 {
        let front = tags.drop_last();
        let before = categories_in(raw, front, scope);
        lemma_category_present(raw, front, scope, title);
        assert forall|k: int| 0 <= k < all.len() implies (#[trigger] all[k]).changes == changes_in(
            raw,
            scope,
            all[k].title,
        ) && all[k].changes.len() > 0 by {
            if k < before.len() {
                assert(all[k] == before[k]);
            }
        }
        let listed = exists|k: int| 0 <= k < all.len() && (#[trigger] all[k]).title == title;
        let wanted = has_title(tags, title) && changes_in(raw, scope, title).len() > 0;
        if listed {
            let k = choose|k: int| 0 <= k < all.len() && (#[trigger] all[k]).title == title;
            if k < before.len() {
                assert(all[k] == before[k]);
                let j = choose|j: int| 0 <= j < front.len() && (#[trigger] front[j]).title == title;
                assert(tags[j] == front[j]);
            } else {
                assert(tags[tags.len() - 1].title == title);
            }
            assert(wanted);
        }
        if wanted {
            if has_title(front, title) {
                let k = choose|k: int|
                    0 <= k < before.len() && (#[trigger] before[k]).title == title;
                assert(all[k] == before[k]);
            } else {
                let j = choose|j: int| 0 <= j < tags.len() && (#[trigger] tags[j]).title == title;
                if j < front.len() {
                    assert(front[j] == tags[j]);
                }
                assert(all[all.len() - 1].title == title);
            }
            assert(listed);
        }
    } else {
        assert(!has_title(tags, title));
    }
}

/// A report has a scope of a given title exactly where the vocabulary
/// declares the title and the scope has a category to show; the scope then
/// holds those categories.
pub proof fn lemma_scope_present(
    raw: Seq<EntryView>,
    tags: Seq<TagView>,
    categories: Seq<TagView>,
    title: Seq<char>,
)
    ensures
        (exists|k: int|
            0 <= k < scopes_in(raw, tags, categories).len() && (#[trigger] scopes_in(
                raw,
                tags,
                categories,
            )[k]).title == title) <==> has_title(tags, title) && categories_in(
            raw,
            categories,
            title,
        ).len() > 0,
        forall|k: int|
            0 <= k < scopes_in(raw, tags, categories).len() ==> (#[trigger] scopes_in(
                raw,
                tags,
                categories,
            )[k]).categories == categories_in(
                raw,
                categories,
                scopes_in(raw, tags, categories)[k].title,
            ) && scopes_in(raw, tags, categories)[k].categories.len() > 0,
    decreases tags.len(),
{
    let all = scopes_in(raw, tags, categories);
    if tags.len() > 0 {
        let front = tags.drop_last();
        let before = scopes_in(raw, front, categories);
        lemma_scope_present(raw, front, categories, title);
        assert forall|k: int| 0 <= k < all.len() implies (#[trigger] all[k]).categories
            == categories_in(raw, categories, all[k].title) && all[k].categories.len() > 0 by {
            if k < before.len() {
                assert(all[k] == before[k]);
            }
        }
        let listed = exists|k: int| 0 <= k < all.len() && (#[trigger] all[k]).title == title;
        let wanted = has_title(tags, title) && categories_in(raw, categories, title).len() > 0;
        if listed {
            let k = choose|k: int| 0 <= k < all.len() && (#[trigger] all[k]).title == title;
            if k < before.len() {
                assert(all[k] == before[k]);
                let j = choose|j: int| 0 <= j < front.len() && (#[trigger] front[j]).title == title;
                assert(tags[j] == front[j]);
            } else {
                assert(tags[tags.len() - 1].title == title);
            }
            assert(wanted);
        }
        if wanted {
            if has_title(front, title) {
                let k = choose|k: int|
                    0 <= k < before.len() && (#[trigger] before[k]).title == title;
                assert(all[k] == before[k]);
            } else {
                let j = choose|j: int| 0 <= j < tags.len() && (#[trigger] tags[j]).title == title;
                if j < front.len() {
                    assert(front[j] == tags[j]);
                }
                assert(all[all.len() - 1].title == title);
            }
            assert(listed);
        }
    } else {
        assert(!has_title(tags, title));
    }
}

/// In a report the scopes follow the order in which the configuration
/// declares them, and within each scope the categories do, whatever the
/// order in which the changes were met. No scope title stands twice, and
/// within a scope no category title does.
pub proof fn lemma_sections_in_declared_order(raw: Seq<EntryView>, config: ConfigurationView)
    ensures
        forall|a: int, b: int|
            0 <= a < b < sections(raw, config).len() ==> position_of(
                config.scopes,
                (#[trigger] sections(raw, config)[a]).title,
            ) < position_of(config.scopes, (#[trigger] sections(raw, config)[b]).title)
                < config.scopes.len(),
        forall|a: int, b: int|
            0 <= a < b < sections(raw, config).len() ==> (#[trigger] sections(raw, config)[a]).title
                != (#[trigger] sections(raw, config)[b]).title,
        forall|s: int, a: int, b: int|
            0 <= s < sections(raw, config).len() && 0 <= a < b < sections(
                raw,
                config,
            )[s].categories.len() ==> position_of(
                config.categories,
                (#[trigger] sections(raw, config)[s].categories[a]).title,
            ) < position_of(
                config.categories,
                (#[trigger] sections(raw, config)[s].categories[b]).title,
            ) < config.categories.len(),
        forall|s: int, a: int, b: int|
            0 <= s < sections(raw, config).len() && 0 <= a < b < sections(
                raw,
                config,
            )[s].categories.len() ==> (#[trigger] sections(raw, config)[s].categories[a]).title
                != (#[trigger] sections(raw, config)[s].categories[b]).title,
{
    let all = sections(raw, config);
    lemma_scopes_in_declared_order(raw, config.scopes, config.categories);
    lemma_scope_present(raw, config.scopes, config.categories, Seq::empty());
    assert forall|s: int, a: int, b: int|
        0 <= s < all.len() && 0 <= a < b < all[s].categories.len() implies position_of(
        config.categories,
        (#[trigger] all[s].categories[a]).title,
    ) < position_of(config.categories, (#[trigger] all[s].categories[b]).title)
        < config.categories.len() by {
        let shown = categories_in(raw, config.categories, all[s].title);
        assert(all[s].categories == shown);
        lemma_categories_in_declared_order(raw, config.categories, all[s].title);
        assert(position_of(config.categories, shown[a].title) < position_of(
            config.categories,
            shown[b].title,
        ));
        assert(position_of(config.categories, shown[b].title) < config.categories.len());
    }
    assert forall|s: int, a: int, b: int|
        0 <= s < all.len() && 0 <= a < b < all[s].categories.len() implies (
    #[trigger] all[s].categories[a]).title != (#[trigger] all[s].categories[b]).title by {
        assert(position_of(config.categories, all[s].categories[a].title) < position_of(
            config.categories,
            all[s].categories[b].title,
        ));
    }
    assert forall|a: int, b: int| 0 <= a < b < all.len() implies position_of(
        config.scopes,
        (#[trigger] all[a]).title,
    ) < position_of(config.scopes, (#[trigger] all[b]).title) < config.scopes.len() by {
        let shown = scopes_in(raw, config.scopes, config.categories);
        assert(position_of(config.scopes, shown[a].title) < position_of(
            config.scopes,
            shown[b].title,
        ));
        assert(position_of(config.scopes, shown[b].title) < config.scopes.len());
    }
}

/// A report shows a change under a scope and a category exactly where it
/// was recorded under their titles: the scope of a title is there where the
/// configuration declares the title and some change was recorded under it
/// and under a declared category; no scope is without categories, no
/// category without changes, and where the raw report is numbered the
/// changes of a category stand by rising sequence number.
pub proof fn lemma_sections_complete(raw: Seq<EntryView>, config: ConfigurationView, title: Seq<char>)
    ensures
        (exists|k: int|
            0 <= k < sections(raw, config).len() && (#[trigger] sections(raw, config)[k]).title
                == title) <==> has_title(config.scopes, title) && exists|i: int|
            0 <= i < raw.len() && (#[trigger] raw[i]).scope == title && has_title(
                config.categories,
                raw[i].category,
            ),
        forall|s: int|
            0 <= s < sections(raw, config).len() ==> (#[trigger] sections(
                raw,
                config,
            )[s]).categories.len() > 0,
        forall|s: int, c: int|
            0 <= s < sections(raw, config).len() && 0 <= c < sections(
                raw,
                config,
            )[s].categories.len() ==> (#[trigger] sections(raw, config)[s].categories[c]).changes
                == changes_in(
                raw,
                sections(raw, config)[s].title,
                sections(raw, config)[s].categories[c].title,
            ) && sections(raw, config)[s].categories[c].changes.len() > 0,
        numbered(raw) ==> forall|s: int, c: int, a: int, b: int|
            0 <= s < sections(raw, config).len() && 0 <= c < sections(
                raw,
                config,
            )[s].categories.len() && 0 <= a < b < sections(
                raw,
                config,
            )[s].categories[c].changes.len() ==> (#[trigger] sections(
                raw,
                config,
            )[s].categories[c].changes[a]).sequence < (#[trigger] sections(
                raw,
                config,
            )[s].categories[c].changes[b]).sequence,
{
    let all = sections(raw, config);
    lemma_scope_present(raw, config.scopes, config.categories, title);
    assert forall|s: int, c: int| 0 <= s < all.len() && 0 <= c < all[s].categories.len() implies (
    #[trigger] all[s].categories[c]).changes == changes_in(
        raw,
        all[s].title,
        all[s].categories[c].title,
    ) && all[s].categories[c].changes.len() > 0 by {
        lemma_category_present(raw, config.categories, all[s].title, Seq::empty());
    }
    if numbered(raw) {
        assert forall|s: int, c: int, a: int, b: int|
            0 <= s < all.len() && 0 <= c < all[s].categories.len() && 0 <= a < b
                < all[s].categories[c].changes.len() implies (
        #[trigger] all[s].categories[c].changes[a]).sequence < (
        #[trigger] all[s].categories[c].changes[b]).sequence by {
            lemma_changes_sorted(raw, all[s].title, all[s].categories[c].title);
        }
    }
    let shown = categories_in(raw, config.categories, title);
    let recorded_under = exists|i: int|
        0 <= i < raw.len() && (#[trigger] raw[i]).scope == title && has_title(
            config.categories,
            raw[i].category,
        );
    if shown.len() > 0 {
        lemma_category_present(raw, config.categories, title, shown[0].title);
        lemma_changes_present(raw, title, shown[0].title);
        let i = choose|i: int|
            0 <= i < raw.len() && (#[trigger] raw[i]).scope == title && raw[i].category
                == shown[0].title;
        assert(has_title(config.categories, raw[i].category));
        assert(recorded_under);
    }
    if recorded_under {
        let i = choose|i: int|
            0 <= i < raw.len() && (#[trigger] raw[i]).scope == title && has_title(
                config.categories,
                raw[i].category,
            );
        lemma_changes_present(raw, title, raw[i].category);
        lemma_category_present(raw, config.categories, title, raw[i].category);
        assert(shown.len() > 0);
    }
}

/// Aggregation is a function of the configuration and the commits: two
/// runs on the same input give the same report.
pub proof fn lemma_same_input_same_report(
    config: ConfigurationView,
    commits: Seq<CommitView>,
    first: ReportView,
    second: ReportView,
)
    requires
        first == report_of(config, commits),
        second == report_of(config, commits),
    ensures
        first == second,
{
}

/// A change without text is not recorded, whatever its tags.
pub proof fn lemma_empty_text_is_excluded(
    raw: Seq<EntryView>,
    config: ConfigurationView,
    state: StateView,
)
    requires
        state.text.len() == 0,
    ensures
        !accepts(config, state),
        recorded(raw, config, state) == raw,
{
}

/// A commit that is not interesting leaves the raw report as it was.
pub proof fn lemma_boring_commit_is_excluded(
    raw: Seq<EntryView>,
    config: ConfigurationView,
    commit: CommitView,
)
    requires
        !interesting(config, commit),
    ensures
        recorded_all(raw, config, changes_of(message_lines(commit.message))) == raw,
{
    lemma_none_accepted(raw, config, changes_of(message_lines(commit.message)));
}

/// Changes of which none is accepted leave the raw report as it was.
proof fn lemma_none_accepted(raw: Seq<EntryView>, config: ConfigurationView, all: Seq<StateView>)
    requires
        forall|i: int| 0 <= i < all.len() ==> !accepts(config, #[trigger] all[i]),
    ensures
        recorded_all(raw, config, all) == raw,
    decreases all.len(),
{
    if all.len() > 0 {
        assert(!accepts(config, all[0]));
        assert forall|i: int| 0 <= i < all.drop_first().len() implies !accepts(
            config,
            #[trigger] all.drop_first()[i],
        ) by {
            assert(all.drop_first()[i] == all[i + 1]);
        }
        lemma_none_accepted(raw, config, all.drop_first());
    }
}

/// The raw report of a list of commits is numbered: its changes carry the
/// sequence numbers 1, 2, 3 and so on, in the order in which they were met.
pub proof fn lemma_raw_report_numbered(config: ConfigurationView, commits: Seq<CommitView>)
    ensures
        numbered(raw_report_of(config, commits)),
{
    crate::report::lemma_gathered(Seq::empty(), config, commits);
}

/// Every recorded change stands under a title that the configuration
/// declares for a scope, and under one that it declares for a category.
pub open spec fn titled(raw: Seq<EntryView>, config: ConfigurationView) -> bool {
    forall|i: int|
        0 <= i < raw.len() ==> has_title(config.scopes, (#[trigger] raw[i]).scope) && has_title(
            config.categories,
            raw[i].category,
        )
}

/// Offering changes keeps the recorded changes under declared titles.
proof fn lemma_recorded_all_titled(
    raw: Seq<EntryView>,
    config: ConfigurationView,
    all: Seq<StateView>,
)
    requires
        titled(raw, config),
    ensures
        titled(recorded_all(raw, config, all), config),
    decreases all.len(),
{
    if all.len() > 0 {
        let next = recorded(raw, config, all[0]);
        if accepts(config, all[0]) {
            crate::config::lemma_title_from(
                config.scopes,
                crate::config::keyword_of(all[0].scope),
                0,
            );
            crate::config::lemma_title_from(
                config.categories,
                crate::config::keyword_of(all[0].category),
                0,
            );
            assert forall|i: int| 0 <= i < next.len() implies has_title(
                config.scopes,
                (#[trigger] next[i]).scope,
            ) && has_title(config.categories, next[i].category) by {
                if i < raw.len() {
                    assert(next[i] == raw[i]);
                }
            }
        }
        lemma_recorded_all_titled(next, config, all.drop_first());
    }
}

/// Offering commits keeps the recorded changes under declared titles.
proof fn lemma_gathered_titled(
    raw: Seq<EntryView>,
    config: ConfigurationView,
    commits: Seq<CommitView>,
)
    requires
        titled(raw, config),
    ensures
        titled(gathered(raw, config, commits), config),
    decreases commits.len(),
{
    if commits.len() > 0 {
        let all = changes_of(message_lines(commits[0].message));
        lemma_recorded_all_titled(raw, config, all);
        lemma_gathered_titled(recorded_all(raw, config, all), config, commits.drop_first());
    }
}

/// A recorded change is among the changes of its scope and category.
pub proof fn lemma_changes_hold(raw: Seq<EntryView>, i: int)
    requires
        0 <= i < raw.len(),
    ensures
        changes_in(raw, raw[i].scope, raw[i].category).contains(raw[i].text),
    decreases raw.len(),
{
    let front = raw.drop_last();
    let all = changes_in(raw, raw[i].scope, raw[i].category);
    let before = changes_in(front, raw[i].scope, raw[i].category);
    if i == raw.len() - 1 {
        assert(all[all.len() - 1] == raw[i].text);
    } else {
        assert(front[i] == raw[i]);
        lemma_changes_hold(front, i);
        let k = choose|k: int| 0 <= k < before.len() && before[k] == raw[i].text;
        assert(all[k] == before[k]);
    }
}

/// The report of a list of commits shows every change that the first pass
/// recorded: under the scope that bears the title of its scope there is the
/// category that bears the title of its category, and the change is among
/// the changes of that category.
pub proof fn lemma_report_shows_every_change(
    config: ConfigurationView,
    commits: Seq<CommitView>,
    i: int,
)
    requires
        0 <= i < raw_report_of(config, commits).len(),
    ensures
        exists|s: int, c: int|
            0 <= s < report_of(config, commits).scopes.len() && 0 <= c
                < report_of(config, commits).scopes[s].categories.len() && (
            #[trigger] report_of(config, commits).scopes[s].categories[c]).changes.contains(
                raw_report_of(config, commits)[i].text,
            ) && report_of(config, commits).scopes[s].title == raw_report_of(
                config,
                commits,
            )[i].scope && report_of(config, commits).scopes[s].categories[c].title
                == raw_report_of(config, commits)[i].category,
{
    let raw = raw_report_of(config, commits);
    let entry = raw[i];
    let all = sections(raw, config);
    assert(titled(Seq::<EntryView>::empty(), config));
    lemma_gathered_titled(Seq::empty(), config, commits);
    lemma_changes_hold(raw, i);
    lemma_category_present(raw, config.categories, entry.scope, entry.category);
    lemma_scope_present(raw, config.scopes, config.categories, entry.scope);
    let s = choose|s: int| 0 <= s < all.len() && (#[trigger] all[s]).title == entry.scope;
    let shown = categories_in(raw, config.categories, entry.scope);
    assert(all[s].categories == shown);
    let c = choose|c: int| 0 <= c < shown.len() && (#[trigger] shown[c]).title == entry.category;
    assert(shown[c].changes == changes_in(raw, entry.scope, entry.category));
    assert(all[s].categories[c].changes.contains(entry.text));
    assert(report_of(config, commits).scopes == all);
    assert(0 <= s < report_of(config, commits).scopes.len() && 0 <= c < report_of(
        config,
        commits,
    ).scopes[s].categories.len() && report_of(config, commits).scopes[s].categories[c].changes.contains(
        raw_report_of(config, commits)[i].text,
    ) && report_of(config, commits).scopes[s].title == raw_report_of(config, commits)[i].scope
        && report_of(config, commits).scopes[s].categories[c].title == raw_report_of(
        config,
        commits,
    )[i].category);
}

/// The report of any list of commits has its scopes in the order in which
/// the configuration declares them, and within each scope its categories,
/// whatever the order in which the messages name them; no scope title
/// stands twice, within a scope no category title does, and in every
/// category the changes stand by rising sequence number.
pub proof fn lemma_report_in_declared_order(config: ConfigurationView, commits: Seq<CommitView>)
    ensures
        forall|a: int, b: int|
            0 <= a < b < report_of(config, commits).scopes.len() ==> position_of(
                config.scopes,
                (#[trigger] report_of(config, commits).scopes[a]).title,
            ) < position_of(
                config.scopes,
                (#[trigger] report_of(config, commits).scopes[b]).title,
            ) < config.scopes.len(),
        forall|a: int, b: int|
            0 <= a < b < report_of(config, commits).scopes.len() ==> (#[trigger] report_of(
                config,
                commits,
            ).scopes[a]).title != (#[trigger] report_of(config, commits).scopes[b]).title,
        forall|s: int, a: int, b: int|
            0 <= s < report_of(config, commits).scopes.len() && 0 <= a < b < report_of(
                config,
                commits,
            ).scopes[s].categories.len() ==> position_of(
                config.categories,
                (#[trigger] report_of(config, commits).scopes[s].categories[a]).title,
            ) < position_of(
                config.categories,
                (#[trigger] report_of(config, commits).scopes[s].categories[b]).title,
            ) < config.categories.len(),
        forall|s: int, a: int, b: int|
            0 <= s < report_of(config, commits).scopes.len() && 0 <= a < b < report_of(
                config,
                commits,
            ).scopes[s].categories.len() ==> (#[trigger] report_of(
                config,
                commits,
            ).scopes[s].categories[a]).title != (#[trigger] report_of(
                config,
                commits,
            ).scopes[s].categories[b]).title,
        crate::report::ascending(report_of(config, commits).scopes),
{
    let raw = raw_report_of(config, commits);
    assert(report_of(config, commits).scopes == sections(raw, config));
    lemma_sections_in_declared_order(raw, config);
    lemma_raw_report_numbered(config, commits);
    lemma_sections_complete(raw, config, Seq::empty());
}

/// The report of a list of commits has a scope of a given title exactly
/// where the configuration declares the title for a scope and one of the
/// commits describes an accepted change whose scope bears that title.
pub proof fn lemma_report_has_the_scopes_in_use(
    config: ConfigurationView,
    commits: Seq<CommitView>,
    title: Seq<char>,
)
    ensures
        (exists|k: int|
            0 <= k < report_of(config, commits).scopes.len() && (#[trigger] report_of(
                config,
                commits,
            ).scopes[k]).title == title) <==> exists|i: int|
            0 <= i < raw_report_of(config, commits).len() && (#[trigger] raw_report_of(
                config,
                commits,
            )[i]).scope == title,
{
    let raw = raw_report_of(config, commits);
    assert(report_of(config, commits).scopes == sections(raw, config));
    assert(titled(Seq::<EntryView>::empty(), config));
    lemma_gathered_titled(Seq::empty(), config, commits);
    lemma_sections_complete(raw, config, title);
    if exists|i: int| 0 <= i < raw.len() && (#[trigger] raw[i]).scope == title {
        let i = choose|i: int| 0 <= i < raw.len() && (#[trigger] raw[i]).scope == title;
        assert(has_title(config.scopes, raw[i].scope) && has_title(
            config.categories,
            raw[i].category,
        ));
    }
}

} // verus!
