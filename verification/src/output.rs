//! Output concerns: the rendered text is rewritten line by line with the
//! configured post-processors.

use crate::config::Configuration;
use crate::input::{PostProcessor, PostProcessorView};
use crate::line::option_view;
use crate::text::{join, joined, lines, lines_of};
use regex::Regex;
use vstd::prelude::*;

verus! {

/// What a regular expression makes of a line: nothing where `lookup` is no
/// regular expression; else the line in which every match of `lookup`, from
/// left to right and without overlap, has given way to `replace`, with the
/// references to groups in `replace` filled in.
pub uninterp spec fn rewritten(lookup: Seq<char>, replace: Seq<char>, line: Seq<char>) -> Option<
    Seq<char>,
>;

/// `Regex::new` of the crate regex on `lookup`, and `Regex::replace_all` of
/// the expression that it gives, with `line` and `replace`; nothing where
/// `Regex::new` fails. The contract claims only that the outcome is
/// determined by the three texts: it is the value that `rewritten` names.
#[verifier::external_body]
fn rewrite(lookup: &str, replace: &str, line: &str) -> (out: Option<String>)
    ensures
        option_view(out) == rewritten(lookup@, replace@, line@),
{
    match Regex::new(lookup) {
        Ok(expression) => Some(expression.replace_all(line, replace).into_owned()),
        Err(_) => None,
    }
}

/// A line after one post-processor: rewritten, or as it was where the
/// post-processor is invalid.
pub open spec fn settled(line: Seq<char>, outcome: Option<Seq<char>>) -> Seq<char> {
    match outcome {
        Some(next) => next,
        None => line,
    }
}

/// A line after the post-processors have worked on it one after the other.
pub open spec fn processed_line(processors: Seq<PostProcessorView>, line: Seq<char>) -> Seq<char>
    decreases processors.len(),
{
    if processors.len() == 0 {
        line
    } else {
        processed_line(
            processors.drop_first(),
            settled(line, rewritten(processors[0].lookup, processors[0].replace, line)),
        )
    }
}

/// The lines after the post-processors have worked on each of them.
pub open spec fn processed_lines(processors: Seq<PostProcessorView>, all: Seq<Seq<char>>) -> Seq<
    Seq<char>,
> {
    Seq::new(all.len(), |i: int| processed_line(processors, all[i]))
}

/// The output after post-processing: its lines, each one processed, joined
/// by line feeds.
pub open spec fn processed(output: Seq<char>, processors: Seq<PostProcessorView>) -> Seq<char> {
    joined(processed_lines(processors, lines_of(output)), seq!['\n'])
}

/// The line that goes on after a post-processor gave `outcome` for it.
pub fn settle(line: String, outcome: Option<String>) -> (next: String)
    ensures
        next@ == settled(line@, option_view(outcome)),
{
    match outcome {
        Some(next) => next,
        None => line,
    }
}

/// One line after all the post-processors.
pub fn process_line(line: &str, post_processors: &[PostProcessor]) -> (out: String)
    ensures
        out@ == processed_line(post_processors.deep_view(), line@),
{
    let mut next: String = line.to_owned();
    let ghost all = post_processors.deep_view();
    let mut i: usize = 0;
    assert(all.skip(0) == all);
    while i < post_processors.len()
        invariant
            i <= post_processors.len(),
            all == post_processors.deep_view(),
            processed_line(all, line@) == processed_line(all.skip(i as int), next@),
        decreases post_processors.len() - i,
    {
        let processor = &post_processors[i];
        assert(all.skip(i as int).drop_first() == all.skip(i + 1));
        let outcome = rewrite(processor.lookup.as_str(), processor.replace.as_str(), next.as_str());
        next = settle(next, outcome);
        i += 1;
    }
    next
}

/// Post process the output before returning it
pub fn post_process(output: &str, post_processors: &[PostProcessor]) -> (out: String)
    ensures
        out@ == processed(output@, post_processors.deep_view()),
{
    let all = lines(output);
    let mut done: Vec<String> = Vec::new();
    let mut i: usize = 0;
    while i < all.len()
        invariant
            i <= all.len(),
            all.deep_view() == lines_of(output@),
            done.deep_view() == processed_lines(post_processors.deep_view(), lines_of(output@)).take(
                i as int,
            ),
        decreases all.len() - i,
    {
        let ghost before = done.deep_view();
        let next = process_line(all[i].as_str(), post_processors);
        done.push(next);
        assert(before.push(next@) == processed_lines(
            post_processors.deep_view(),
            lines_of(output@),
        ).take(i + 1));
        i += 1;
    }
    proof {
        let whole = processed_lines(post_processors.deep_view(), lines_of(output@));
        assert(whole.take(i as int) == whole);
        reveal_strlit("\n");
        assert("\n"@ =~= seq!['\n']);
    }
    join(&done, 0, "\n")
}

/// Post process the output with the post-processors of the configuration
pub fn postprocess(config: &Configuration, input: &str) -> (out: String)
    ensures
        out@ == processed(input@, config@.post_processors),
{
    let processors = config.post_processors.as_slice();
    post_process(input, processors)
}

} // verus!
