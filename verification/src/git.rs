//! What the answers of `git` mean: the last tag, and the address of a
//! remote as far as links can use it.

use crate::line::option_view;
use crate::text::{chars_of, find_last, lower, rfind, string_of, to_lower};
use vstd::prelude::*;

verus! {

/// The address begins with `http`, in small or capital letters.
pub open spec fn is_http(raw: Seq<char>) -> bool {
    raw.len() >= 4 && lower(raw[0]) == 'h' && lower(raw[1]) == 't' && lower(raw[2]) == 't'
        && lower(raw[3]) == 'p'
}

/// The ending that an address is cut at.
pub open spec fn git_suffix() -> Seq<char> {
    seq!['.', 'g', 'i', 't']
}

/// The address as links can use it: an address that begins with `http`,
/// up to its last `.git` where it has one; no other address is usable.
pub open spec fn usable(raw: Seq<char>) -> Option<Seq<char>> {
    if is_http(raw) {
        match rfind(raw, git_suffix()) {
            Some(index) => Some(raw.take(index)),
            None => Some(raw),
        }
    } else {
        None
    }
}

/// Check if the remote URL is usable for links
pub fn usable_url(raw: String) -> (url: Option<String>)
    ensures
        option_view(url) == usable(raw@),
{
    let v = chars_of(raw.as_str());
    if v.len() >= 4 && to_lower(v[0]) == 'h' && to_lower(v[1]) == 't' && to_lower(v[2]) == 't'
        && to_lower(v[3]) == 'p' {
        let suffix: Vec<char> = vec!['.', 'g', 'i', 't'];
        match find_last(&v, &suffix) {
            Some(index) => {
                Some(string_of(&v, 0, index))
            },
            None => Some(raw),
        }
    } else {
        None
    }
}

/// The fetch address of a remote, from the lines that `git remote get-url`
/// printed: the last line, as far as it is usable.
pub fn get_remote_url(lines: Vec<String>) -> (url: Option<String>)
    ensures
        option_view(url) == if lines.len() == 0 {
            None
        } else {
            usable(lines@.last()@)
        },
{
    let mut lines = lines;
    match lines.pop() {
        Some(last) => usable_url(last),
        None => None,
    }
}

/// The last tag, from the tags that `git for-each-ref` printed, newest
/// first and one at most: the last of them.
pub fn last_tag(tags: Vec<String>) -> (tag: Option<String>)
    ensures
        option_view(tag) == if tags.len() == 0 {
            None
        } else {
            Some(tags@.last()@)
        },
{
    let mut tags = tags;
    tags.pop()
}

} // verus!
