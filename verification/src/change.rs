//! From the lines of a commit message to the changes that it describes.
//!
//! A line with a category opens a change; the lines that follow it, up to
//! the next line with a category, continue it. What stands before the first
//! line with a category is a change without tags.

use crate::line::{copy_option, option_view, Line, LineView};
use vstd::prelude::*;

verus! {

/// A change as it is read from a commit message: its tags, and its text line
/// by line.
#[derive(Clone, Debug)]
pub struct State {
    /// The current text
    pub text: Vec<String>,
    /// The current scope
    pub scope: Option<String>,
    /// The current category
    pub category: Option<String>,
}

/// What a `State` holds, as sequences of characters.
pub struct StateView {
    pub text: Seq<Seq<char>>,
    pub scope: Option<Seq<char>>,
    pub category: Option<Seq<char>>,
}

impl View for State {
    type V = StateView;

    open spec fn view(&self) -> StateView {
        StateView {
            text: self.text.deep_view(),
            scope: option_view(self.scope),
            category: option_view(self.category),
        }
    }
}

impl DeepView for State {
    type V = StateView;

    open spec fn deep_view(&self) -> StateView {
        self@
    }
}

/// The change without tags and without text.
pub open spec fn fresh() -> StateView {
    StateView { text: Seq::empty(), scope: None, category: None }
}

impl Default for State {
    fn default() -> (state: State)
        ensures
            state@ == fresh(),
    {
        let state = State { text: Vec::new(), scope: None, category: None };
        assert(state.text.deep_view() == Seq::<Seq<char>>::empty());
        state
    }
}

/// The text of a line, empty where it has none.
pub open spec fn text_or_empty(line: LineView) -> Seq<char> {
    match line.text {
        Some(text) => text,
        None => Seq::empty(),
    }
}

/// The change in progress once `line` has been read: a line with a category
/// begins a new one, and every line adds its text.
pub open spec fn continued(current: StateView, line: LineView) -> StateView {
    if line.category is Some {
        StateView {
            text: seq![text_or_empty(line)],
            scope: line.scope,
            category: line.category,
        }
    } else {
        StateView {
            text: current.text.push(text_or_empty(line)),
            scope: current.scope,
            category: current.category,
        }
    }
}

/// The changes that `lines` describe when `current` is in progress: a line
/// with a category closes the change in progress, and the end of the lines
/// closes the last one.
pub open spec fn changes_from(lines: Seq<LineView>, current: StateView) -> Seq<StateView>
    decreases lines.len(),
{
    if lines.len() == 0 {
        seq![current]
    } else if lines[0].category is Some {
        seq![current] + changes_from(lines.drop_first(), continued(current, lines[0]))
    } else {
        changes_from(lines.drop_first(), continued(current, lines[0]))
    }
}

/// The changes that the lines of one commit message describe, in order.
pub open spec fn changes_of(lines: Seq<LineView>) -> Seq<StateView> {
    changes_from(lines, fresh())
}

/// Every message describes one change at least, be it an empty one.
pub proof fn lemma_changes_not_empty(lines: Seq<LineView>, current: StateView)
    ensures
        changes_from(lines, current).len() >= 1,
        changes_from(lines, current)[0] == if lines.len() > 0 && lines[0].category is None {
            changes_from(lines.drop_first(), continued(current, lines[0]))[0]
        } else {
            current
        },
    decreases lines.len(),
{
    if lines.len() > 0 {
        lemma_changes_not_empty(lines.drop_first(), continued(current, lines[0]));
    }
}

/// The changes that the lines of one commit message describe, in order.
pub fn changes(lines: Vec<Line>) -> (all: Vec<State>)
    ensures
        all.deep_view() == changes_of(lines.deep_view()),
{
    let mut all: Vec<State> = Vec::new();
    let mut current = State::default();
    let mut i: usize = 0;
    assert(lines.deep_view().skip(0) == lines.deep_view());
    while i < lines.len()
        invariant
            i <= lines.len(),
            changes_of(lines.deep_view()) == all.deep_view() + changes_from(
                lines.deep_view().skip(i as int),
                current@,
            ),
        decreases lines.len() - i,
    {
        let line = &lines[i];
        let ghost left = lines.deep_view().skip(i as int);
        let ghost was = current@;
        assert(left.drop_first() == lines.deep_view().skip(i + 1));
        let text = match &line.text {
            Some(t) => t.clone(),
            None => String::new(),
        };
        if line.category.is_some() {
            all.push(current);
            current =
            State {
                text: Vec::new(),
                scope: copy_option(&line.scope),
                category: copy_option(&line.category),
            };
        }
        let ghost texts = current.text.deep_view();
        current.text.push(text);
        assert(current.text.deep_view() == texts.push(text@));
        assert(current@ == continued(was, line@)) by {
            if line@.category is Some {
                assert(texts.push(text@) == seq![text@]);
            }
        }
        i += 1;
    }
    all.push(current);
    all
}

} // verus!
