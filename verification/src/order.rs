//! What holds of every change log: the order of its sections, that none
//! stands twice, and that none is empty.

use crate::changelog::{
    blocks_of, categories_in, filed_all, interesting, kept, lemma_filed_all, scopes_in, texts_in,
    SlotView,
};
use crate::commit::{message_lines, CommitView};
use crate::input::ConventionsView;
use vstd::prelude::*;

verus! {

/// The first position at or after `i` that holds the title, or the number
/// of titles.
pub open spec fn position_from(titles: Seq<Seq<char>>, title: Seq<char>, i: int) -> int
    decreases titles.len() - i,
{
    if 0 <= i < titles.len() && titles[i] != title {
        position_from(titles, title, i + 1)
    } else {
        i
    }
}

/// The position at which a title is declared first, or the number of
/// titles where it is not declared.
pub open spec fn position_of(titles: Seq<Seq<char>>, title: Seq<char>) -> int {
    position_from(titles, title, 0)
}

/// The position found from `i` on is that of the first such title.
proof fn lemma_position_from(titles: Seq<Seq<char>>, title: Seq<char>, i: int)
    requires
        0 <= i <= titles.len(),
    ensures
        i <= position_from(titles, title, i) <= titles.len(),
        position_from(titles, title, i) < titles.len() ==> titles[position_from(titles, title, i)]
            == title,
        forall|j: int| i <= j < position_from(titles, title, i) ==> titles[j] != title,
    decreases titles.len() - i,
{
    if i < titles.len() && titles[i] != title {
        lemma_position_from(titles, title, i + 1);
    }
}

/// The position of a title is that of its first occurrence.
pub proof fn lemma_position_of(titles: Seq<Seq<char>>, title: Seq<char>)
    ensures
        0 <= position_of(titles, title) <= titles.len(),
        position_of(titles, title) < titles.len() <==> titles.contains(title),
        position_of(titles, title) < titles.len() ==> titles[position_of(titles, title)] == title,
        forall|j: int| 0 <= j < position_of(titles, title) ==> titles[j] != title,
{
    lemma_position_from(titles, title, 0);
}

/// A declared title keeps its position when titles are added behind; one
/// that only the added title declares stands last.
proof fn lemma_position_extended(titles: Seq<Seq<char>>, title: Seq<char>)
    requires
        titles.len() > 0,
    ensures
        titles.drop_last().contains(title) ==> position_of(titles, title) == position_of(
            titles.drop_last(),
            title,
        ),
        !titles.drop_last().contains(title) && titles.last() == title ==> position_of(titles, title)
            == titles.len() - 1,
{
    let front = titles.drop_last();
    lemma_position_of(titles, title);
    lemma_position_of(front, title);
    let p = position_of(titles, title);
    let q = position_of(front, title);
    if front.contains(title) {
        assert(front[q] == titles[q]);
        if p < q {
            assert(front[p] == titles[p]);
        }
    } else if titles.last() == title {
        if p < titles.len() - 1 {
            assert(front[p] == titles[p]);
        }
    }
}

/// The categories of a scope stand in the order in which their titles are
/// declared: each title is declared, and a category that stands before
/// another is declared before it. So no title stands twice. Each category
/// holds the texts filed under it, one at least.
pub proof fn lemma_categories_in_declared_order(
    slots: Seq<SlotView>,
    titles: Seq<Seq<char>>,
    scope: Seq<char>,
)
    ensures
        forall|k: int|
            0 <= k < categories_in(slots, titles, scope).len() ==> position_of(
                titles,
                (#[trigger] categories_in(slots, titles, scope)[k]).title,
            ) < titles.len(),
        forall|a: int, b: int|
            0 <= a < b < categories_in(slots, titles, scope).len() ==> position_of(
                titles,
                (#[trigger] categories_in(slots, titles, scope)[a]).title,
            ) < position_of(titles, (#[trigger] categories_in(slots, titles, scope)[b]).title),
        forall|k: int|
            0 <= k < categories_in(slots, titles, scope).len() ==> (#[trigger] categories_in(
                slots,
                titles,
                scope,
            )[k]).changes == texts_in(slots, scope, categories_in(slots, titles, scope)[k].title)
                && categories_in(slots, titles, scope)[k].changes.len() > 0,
    decreases titles.len(),
{
    if titles.len() > 0 {
        let front = titles.drop_last();
        lemma_categories_in_declared_order(slots, front, scope);
        let before = categories_in(slots, front, scope);
        let all = categories_in(slots, titles, scope);
        assert forall|k: int| 0 <= k < all.len() implies position_of(titles, (#[trigger] all[k]).title)
            < titles.len() && (k < before.len() ==> position_of(titles, all[k].title) < front.len())
            && all[k].changes == texts_in(slots, scope, all[k].title) && all[k].changes.len()
            > 0 by {
            lemma_position_extended(titles, all[k].title);
            if k < before.len() {
                assert(all[k] == before[k]);
                lemma_position_of(front, before[k].title);
            }
        }
        assert forall|a: int, b: int| 0 <= a < b < all.len() implies position_of(
            titles,
            (#[trigger] all[a]).title,
        ) < position_of(titles, (#[trigger] all[b]).title) by {
            assert(all[a] == before[a]);
            lemma_position_extended(titles, all[a].title);
            lemma_position_extended(titles, all[b].title);
            lemma_position_of(front, all[a].title);
            if b < before.len() {
                assert(all[b] == before[b]);
                lemma_position_of(front, all[b].title);
            }
        }
    }
}

/// The scopes of a change log stand in the order in which their titles are
/// declared: each title is declared, and a scope that stands before another
/// is declared before it. So no title stands twice. Each scope holds the
/// categories that have changes in it, one at least.
pub proof fn lemma_scopes_in_declared_order(
    slots: Seq<SlotView>,
    titles: Seq<Seq<char>>,
    categories: Seq<Seq<char>>,
)
    ensures
        forall|k: int|
            0 <= k < scopes_in(slots, titles, categories).len() ==> position_of(
                titles,
                (#[trigger] scopes_in(slots, titles, categories)[k]).title,
            ) < titles.len(),
        forall|a: int, b: int|
            0 <= a < b < scopes_in(slots, titles, categories).len() ==> position_of(
                titles,
                (#[trigger] scopes_in(slots, titles, categories)[a]).title,
            ) < position_of(titles, (#[trigger] scopes_in(slots, titles, categories)[b]).title),
        forall|k: int|
            0 <= k < scopes_in(slots, titles, categories).len() ==> (#[trigger] scopes_in(
                slots,
                titles,
                categories,
            )[k]).categories == categories_in(
                slots,
                categories,
                scopes_in(slots, titles, categories)[k].title,
            ) && scopes_in(slots, titles, categories)[k].categories.len() > 0,
    decreases titles.len(),
{
    if titles.len() > 0 {
        let front = titles.drop_last();
        lemma_scopes_in_declared_order(slots, front, categories);
        let before = scopes_in(slots, front, categories);
        let all = scopes_in(slots, titles, categories);
        assert forall|k: int| 0 <= k < all.len() implies position_of(titles, (#[trigger] all[k]).title)
            < titles.len() && (k < before.len() ==> position_of(titles, all[k].title) < front.len())
            && all[k].categories == categories_in(slots, categories, all[k].title)
            && all[k].categories.len() > 0 by {
            lemma_position_extended(titles, all[k].title);
            if k < before.len() {
                assert(all[k] == before[k]);
                lemma_position_of(front, before[k].title);
            }
        }
        assert forall|a: int, b: int| 0 <= a < b < all.len() implies position_of(
            titles,
            (#[trigger] all[a]).title,
        ) < position_of(titles, (#[trigger] all[b]).title) by {
            assert(all[a] == before[a]);
            lemma_position_extended(titles, all[a].title);
            lemma_position_extended(titles, all[b].title);
            lemma_position_of(front, all[a].title);
            if b < before.len() {
                assert(all[b] == before[b]);
                lemma_position_of(front, all[b].title);
            }
        }
    }
}

/// In a change log no scope title stands twice, and within a scope no
/// category title does.
pub proof fn lemma_no_section_twice(
    slots: Seq<SlotView>,
    titles: Seq<Seq<char>>,
    categories: Seq<Seq<char>>,
)
    ensures
        forall|a: int, b: int|
            0 <= a < b < scopes_in(slots, titles, categories).len() ==> (#[trigger] scopes_in(
                slots,
                titles,
                categories,
            )[a]).title != (#[trigger] scopes_in(slots, titles, categories)[b]).title,
        forall|s: int, a: int, b: int|
            0 <= s < scopes_in(slots, titles, categories).len() && 0 <= a < b < scopes_in(
                slots,
                titles,
                categories,
            )[s].categories.len() ==> (#[trigger] scopes_in(
                slots,
                titles,
                categories,
            )[s].categories[a]).title != (#[trigger] scopes_in(
                slots,
                titles,
                categories,
            )[s].categories[b]).title,
{
    let all = scopes_in(slots, titles, categories);
    lemma_scopes_in_declared_order(slots, titles, categories);
    assert forall|s: int, a: int, b: int|
        0 <= s < all.len() && 0 <= a < b < all[s].categories.len() implies (
    #[trigger] all[s].categories[a]).title != (#[trigger] all[s].categories[b]).title by {
        let shown = categories_in(slots, categories, all[s].title);
        assert(all[s].categories == shown);
        lemma_categories_in_declared_order(slots, categories, all[s].title);
        assert(position_of(categories, shown[a].title) < position_of(categories, shown[b].title));
    }
    assert forall|a: int, b: int| 0 <= a < b < all.len() implies (#[trigger] all[a]).title != (
    #[trigger] all[b]).title by {
        assert(position_of(titles, all[a].title) < position_of(titles, all[b].title));
    }
}

/// A commit that is not interesting files nothing, and one that is
/// interesting files a change at least.
pub proof fn lemma_interesting_commits_file(
    slots: Seq<SlotView>,
    conventions: ConventionsView,
    commit: CommitView,
)
    ensures
        filed_all(slots, conventions, blocks_of(message_lines(commit.message))).len() > slots.len()
            <==> interesting(conventions, commit),
        !interesting(conventions, commit) ==> filed_all(
            slots,
            conventions,
            blocks_of(message_lines(commit.message)),
        ) == slots,
{
    lemma_filed_all(slots, conventions, blocks_of(message_lines(commit.message)));
}

/// The commits that a change log keeps are commits of the list, in their
/// order, and each of them is interesting.
pub proof fn lemma_kept_are_interesting(conventions: ConventionsView, commits: Seq<CommitView>)
    ensures
        kept(conventions, commits).len() <= commits.len(),
        forall|k: int|
            0 <= k < kept(conventions, commits).len() ==> interesting(
                conventions,
                #[trigger] kept(conventions, commits)[k],
            ) && commits.contains(kept(conventions, commits)[k]),
    decreases commits.len(),
{
    if commits.len() > 0 {
        let front = commits.drop_last();
        lemma_kept_are_interesting(conventions, front);
        let before = kept(conventions, front);
        let all = kept(conventions, commits);
        assert forall|k: int| 0 <= k < all.len() implies interesting(conventions, #[trigger] all[k])
            && commits.contains(all[k]) by {
            if k < before.len() {
                assert(all[k] == before[k]);
                let j = choose|j: int| 0 <= j < front.len() && front[j] == before[k];
                assert(commits[j] == front[j]);
            } else {
                assert(commits[commits.len() - 1] == all[k]);
            }
        }
    }
}

} // verus!
