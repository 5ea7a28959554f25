//! The decisions of a run: which revisions a report covers where none are
//! named, and which commits it shows in which order.

use crate::commit::{reversed, Commit, CommitView};
use crate::config::{interesting, is_interesting, Configuration, ConfigurationView};
use crate::line::option_view;
use crate::text::chars_of;
use vstd::prelude::*;
use vstd::string::StringExecFns;

verus! {

/// The revision that a report starts behind: the last tag, or the commit
/// before `HEAD` where there is no tag.
pub open spec fn start_of(last_tag: Option<Seq<char>>) -> Seq<char> {
    match last_tag {
        Some(tag) => tag,
        None => seq!['H', 'E', 'A', 'D', '^'],
    }
}

/// The revisions of a report for which no range was given: everything up
/// to `HEAD` that is not reachable from the last tag, or from the commit
/// before `HEAD` where there is no tag.
pub fn default_range(last_tag: Option<String>) -> (range: Vec<String>)
    ensures
        range.deep_view() == seq![
            seq!['^'] + start_of(option_view(last_tag)),
            seq!['H', 'E', 'A', 'D'],
        ],
{
    proof {
        reveal_strlit("HEAD^");
        reveal_strlit("HEAD");
        assert("HEAD^"@ =~= seq!['H', 'E', 'A', 'D', '^']);
        assert("HEAD"@ =~= seq!['H', 'E', 'A', 'D']);
    }
    let mut from = String::new();
    from.push('^');
    match &last_tag {
        Some(tag) => from.append(tag.as_str()),
        None => from.append("HEAD^"),
    }
    assert(from@ == seq!['^'] + start_of(option_view(last_tag)));
    let mut range: Vec<String> = Vec::new();
    range.push(from);
    range.push("HEAD".to_owned());
    range
}

/// `a` comes before `b` in the order of texts, from position `i` on: at the
/// first position where they differ `a` has the smaller character, or `a`
/// ends there and `b` does not.
pub open spec fn precedes_from(a: Seq<char>, b: Seq<char>, i: int) -> bool
    decreases a.len() - i,
{
    if i < 0 || i >= b.len() {
        false
    } else if i >= a.len() {
        true
    } else if a[i] != b[i] {
        a[i] < b[i]
    } else {
        precedes_from(a, b, i + 1)
    }
}

/// `a` comes before `b` in the order of texts.
pub open spec fn precedes(a: Seq<char>, b: Seq<char>) -> bool {
    precedes_from(a, b, 0)
}

/// Whether the first text comes before the second in the order of texts.
pub fn before(a: &str, b: &str) -> (r: bool)
    ensures
        r == precedes(a@, b@),
{
    let x = chars_of(a);
    let y = chars_of(b);
    let mut i: usize = 0;
    while i < x.len() && i < y.len()
        invariant
            x@ == a@,
            y@ == b@,
            i <= x.len(),
            i <= y.len(),
            precedes(a@, b@) == precedes_from(a@, b@, i as int),
        decreases x.len() - i,
    {
        if x[i] != y[i] {
            return x[i] < y[i];
        }
        i += 1;
    }
    i < y.len()
}

/// The position at or after `i` at which a commit of the given time goes
/// into a list: before the first commit whose time comes after it.
pub open spec fn slot_from(commits: Seq<CommitView>, time: Seq<char>, i: int) -> int
    decreases commits.len() - i,
{
    if 0 <= i < commits.len() && !precedes(time, commits[i].time) {
        slot_from(commits, time, i + 1)
    } else {
        i
    }
}

/// The list with the commit put in after the commits that are not later
/// than it.
pub open spec fn inserted(commits: Seq<CommitView>, commit: CommitView) -> Seq<CommitView> {
    commits.insert(slot_from(commits, commit.time, 0), commit)
}

/// The commits ordered by time; commits of the same time keep their order.
pub open spec fn ordered(commits: Seq<CommitView>) -> Seq<CommitView>
    decreases commits.len(),
{
    if commits.len() == 0 {
        Seq::empty()
    } else {
        inserted(ordered(commits.drop_last()), commits.last())
    }
}

/// The interesting ones among the commits, in their order.
pub open spec fn chosen(config: ConfigurationView, commits: Seq<CommitView>) -> Seq<CommitView>
    decreases commits.len(),
{
    if commits.len() == 0 {
        Seq::empty()
    } else if interesting(config, commits.last()) {
        chosen(config, commits.drop_last()).push(commits.last())
    } else {
        chosen(config, commits.drop_last())
    }
}

/// The commits that a report shows: the interesting ones, ordered by time.
pub open spec fn selected(config: ConfigurationView, commits: Seq<CommitView>) -> Seq<CommitView> {
    ordered(chosen(config, commits))
}

/// The slot lies within the list or at its end; no commit before it is
/// later than the given time, and the commit at it is.
pub proof fn lemma_slot_from(commits: Seq<CommitView>, time: Seq<char>, i: int)
    requires
        0 <= i <= commits.len(),
    ensures
        i <= slot_from(commits, time, i) <= commits.len(),
        forall|k: int|
            i <= k < slot_from(commits, time, i) ==> !precedes(time, (#[trigger] commits[k]).time),
        slot_from(commits, time, i) < commits.len() ==> precedes(
            time,
            commits[slot_from(commits, time, i)].time,
        ),
    decreases commits.len() - i,
{
    if i < commits.len() && !precedes(time, commits[i].time) {
        lemma_slot_from(commits, time, i + 1);
    }
}

/// Of two texts at most one comes before the other, and where neither
/// does, both are the same.
pub proof fn lemma_precedes_total(a: Seq<char>, b: Seq<char>)
    ensures
        !(precedes(a, b) && precedes(b, a)),
        !precedes(a, b) && !precedes(b, a) ==> a == b,
{
    assert(a.take(0) == b.take(0));
    lemma_precedes_total_from(a, b, 0);
}

/// The same, for two texts that agree before position `i`.
proof fn lemma_precedes_total_from(a: Seq<char>, b: Seq<char>, i: int)
    requires
        0 <= i <= a.len(),
        i <= b.len(),
        a.take(i) == b.take(i),
    ensures
        !(precedes_from(a, b, i) && precedes_from(b, a, i)),
        !precedes_from(a, b, i) && !precedes_from(b, a, i) ==> a == b,
    decreases a.len() - i,
{
    if i < a.len() && i < b.len() && a[i] == b[i] {
        assert(a.take(i + 1) == a.take(i).push(a[i]));
        assert(b.take(i + 1) == b.take(i).push(b[i]));
        lemma_precedes_total_from(a, b, i + 1);
    } else if i == a.len() && i == b.len() {
        assert(a.take(i) == a);
        assert(b.take(i) == b);
    }
}

/// The order of texts is transitive.
pub proof fn lemma_precedes_transitive(a: Seq<char>, b: Seq<char>, c: Seq<char>, i: int)
    requires
        0 <= i,
        precedes_from(a, b, i),
        precedes_from(b, c, i),
    ensures
        precedes_from(a, c, i),
    decreases a.len() - i,
{
    if i < a.len() && a[i] == b[i] && b[i] == c[i] {
        lemma_precedes_transitive(a, b, c, i + 1);
    }
}

/// The commits stand by time: none comes before one that stands earlier.
pub open spec fn by_time(commits: Seq<CommitView>) -> bool {
    forall|i: int, j: int|
        0 <= i < j < commits.len() ==> !precedes(
            (#[trigger] commits[j]).time,
            (#[trigger] commits[i]).time,
        )
}

/// Ordering gives the same commits, each as often as before, and they stand
/// by time.
pub proof fn lemma_ordered(commits: Seq<CommitView>)
    ensures
        by_time(ordered(commits)),
        ordered(commits).to_multiset() == commits.to_multiset(),
        ordered(commits).len() == commits.len(),
    decreases commits.len(),
{
    broadcast use vstd::seq_lib::to_multiset_build, vstd::seq_lib::to_multiset_insert;

    if commits.len() > 0 {
        let front = commits.drop_last();
        let last = commits.last();
        lemma_ordered(front);
        let sorted = ordered(front);
        let slot = slot_from(sorted, last.time, 0);
        lemma_slot_from(sorted, last.time, 0);
        let all = ordered(commits);
        assert(commits == front.push(last));
        assert forall|i: int, j: int| 0 <= i < j < all.len() implies !precedes(
            (#[trigger] all[j]).time,
            (#[trigger] all[i]).time,
        ) by {
            if i == slot {
                lemma_precedes_total(last.time, sorted[slot].time);
                if precedes(sorted[j - 1].time, last.time) {
                    lemma_precedes_transitive(sorted[j - 1].time, last.time, sorted[slot].time, 0);
                }
            }
        }
    } else {
        assert(ordered(commits) == commits);
    }
}

/// Order the commits by time
pub fn sort_by_time(commits: Vec<Commit>) -> (out: Vec<Commit>)
    ensures
        out.deep_view() == ordered(commits.deep_view()),
{
    let ghost all = commits.deep_view();
    let mut rest = reversed(commits);
    let mut out: Vec<Commit> = Vec::new();
    let ghost done: Seq<CommitView> = Seq::empty();
    while rest.len() > 0
        invariant
            done + rest.deep_view().reverse() == all,
            out.deep_view() == ordered(done),
        decreases rest.len(),
    {
        let ghost sorted = out.deep_view();
        let commit = rest.pop().unwrap();
        proof {
            assert(done.push(commit@).drop_last() == done);
            done = done.push(commit@);
        }
        let mut slot: usize = 0;
        while slot < out.len() && !before(commit.time.as_str(), out[slot].time.as_str())
            invariant
                slot <= out.len(),
                out.deep_view() == sorted,
                slot_from(sorted, commit@.time, 0) == slot_from(sorted, commit@.time, slot as int),
            decreases out.len() - slot,
        {
            slot += 1;
        }
        out.insert(slot, commit);
    }
    out
}

/// The commits that a report shows: the interesting ones, ordered by time.
pub fn select(config: &Configuration, commits: Vec<Commit>) -> (out: Vec<Commit>)
    ensures
        out.deep_view() == selected(config@, commits.deep_view()),
{
    let ghost all = commits.deep_view();
    let mut rest = reversed(commits);
    let mut kept: Vec<Commit> = Vec::new();
    let ghost done: Seq<CommitView> = Seq::empty();
    while rest.len() > 0
        invariant
            done + rest.deep_view().reverse() == all,
            kept.deep_view() == chosen(config@, done),
        decreases rest.len(),
    {
        let commit = rest.pop().unwrap();
        proof {
            assert(done.push(commit@).drop_last() == done);
            done = done.push(commit@);
        }
        if is_interesting(config, &commit) {
            kept.push(commit);
        }
    }
    sort_by_time(kept)
}

} // verus!
