//! Helpers for the templates that render a change log.

use crate::text::{chars_of, lines, lines_of, trim, trimmed};
use vstd::prelude::*;
use vstd::string::StringExecFns;

verus! {

/// The lines, each with the indent before it and a line feed behind it.
pub open spec fn indented(indent: Seq<char>, all: Seq<Seq<char>>) -> Seq<char>
    decreases all.len(),
{
    if all.len() == 0 {
        Seq::empty()
    } else {
        indented(indent, all.drop_last()) + indent + all.last() + seq!['\n']
    }
}

/// A change tidied up for a list: its first line without the white space
/// around it, and every other line with the indent before it; a line feed
/// ends each line. A change without lines gives nothing.
pub open spec fn tidied(indent: Seq<char>, text: Seq<char>) -> Seq<char> {
    let all = lines_of(text);
    if all.len() == 0 {
        Seq::empty()
    } else {
        trimmed(all[0]) + seq!['\n'] + indented(indent, all.skip(1))
    }
}

/// Tidy up a change for a markdown list.
pub fn tidy(indent: &str, text: &str) -> (out: String)
    ensures
        out@ == tidied(indent@, text@),
{
    let all = lines(text);
    let mut out = String::new();
    if all.len() == 0 {
        return out;
    }
    let first = chars_of(all[0].as_str());
    assert(first@.take(first.len() as int) == first@);
    out.append(trim(&first, first.len()).as_str());
    out.push('\n');
    let ghost head = out@;
    let ghost others = all.deep_view().skip(1);
    let mut i: usize = 1;
    while i < all.len()
        invariant
            1 <= i <= all.len(),
            others == all.deep_view().skip(1),
            out@ == head + indented(indent@, others.take(i - 1)),
        decreases all.len() - i,
    {
        out.append(indent);
        out.append(all[i].as_str());
        out.push('\n');
        assert(others.take(i as int).drop_last() == others.take(i - 1));
        i += 1;
    }
    assert(others.take(i - 1) == others);
    out
}

} // verus!
