//! The grammar of one line of a commit message.
//!
//! A line is a change with a category and a scope, a change with a category
//! alone, or plain text; the three are tried in that order. A tag name is a
//! run of ASCII letters and digits, padded freely with spaces, and is kept in
//! lower case. The text of a line is kept as it stands.

use crate::text::{
    chars_of, is_alphanumeric, is_space, lemma_skip_alphanumeric_bounds,
    lemma_skip_alphanumeric_run, lemma_skip_spaces_bounds, lemma_skip_spaces_run, lowered,
    lowered_string_of, scan_alphanumeric, scan_spaces, skip_alphanumeric, skip_spaces, string_of,
};
use vstd::prelude::*;

verus! {

/// A single line in a commit message.
#[derive(Debug)]
pub struct Line {
    /// The scope
    pub scope: Option<String>,
    /// The category
    pub category: Option<String>,
    /// The text
    pub text: Option<String>,
}

/// What a `Line` holds, as sequences of characters.
pub struct LineView {
    pub scope: Option<Seq<char>>,
    pub category: Option<Seq<char>>,
    pub text: Option<Seq<char>>,
}

/// The view of a text that may be missing.
pub open spec fn option_view(o: Option<String>) -> Option<Seq<char>> {
    match o {
        Some(s) => Some(s@),
        None => None,
    }
}

/// A copy of a text that may be missing.
pub fn copy_option(o: &Option<String>) -> (r: Option<String>)
    ensures
        option_view(r) == option_view(*o),
{
    match o {
        Some(s) => Some(s.clone()),
        None => None,
    }
}

impl View for Line {
    type V = LineView;

    open spec fn view(&self) -> LineView {
        LineView {
            scope: option_view(self.scope),
            category: option_view(self.category),
            text: option_view(self.text),
        }
    }
}

impl DeepView for Line {
    type V = LineView;

    open spec fn deep_view(&self) -> LineView {
        self@
    }
}

/// The line that holds nothing.
pub open spec fn blank_line() -> LineView {
    LineView { scope: None, category: None, text: None }
}

impl Default for Line {
    fn default() -> (line: Line)
        ensures
            line@ == blank_line(),
    {
        Line { scope: None, category: None, text: None }
    }
}

/// A tag name read from a line: the name in lower case, and the position
/// behind the padding that follows it.
pub struct Token {
    pub name: Seq<char>,
    pub end: int,
}

/// The character `c` stands at position `i` of `s`.
pub open spec fn has_char(s: Seq<char>, i: int, c: char) -> bool {
    0 <= i < s.len() && s[i] == c
}

/// The tag name that begins at position `i`: padding, one letter or digit
/// or more, padding.
pub open spec fn token_at(s: Seq<char>, i: int) -> Option<Token> {
    let a = skip_spaces(s, i);
    let b = skip_alphanumeric(s, a);
    if a < b {
        Some(Token { name: lowered(s.subrange(a, b)), end: skip_spaces(s, b) })
    } else {
        None
    }
}

/// What stands from position `i` to the end of the line, if anything does.
pub open spec fn remainder(s: Seq<char>, i: int) -> Option<Seq<char>> {
    if 0 <= i < s.len() {
        Some(s.subrange(i, s.len() as int))
    } else {
        None
    }
}

/// The line as a change with a scope: `-`, the category, `(`, the scope,
/// `):`, and then the text, if any.
pub open spec fn scoped_change(s: Seq<char>) -> Option<LineView> {
    if !has_char(s, 0, '-') {
        None
    } else {
        match token_at(s, 1) {
            None => None,
            Some(category) => if !has_char(s, category.end, '(') {
                None
            } else {
                match token_at(s, category.end + 1) {
                    None => None,
                    Some(scope) => if has_char(s, scope.end, ')') && has_char(
                        s,
                        scope.end + 1,
                        ':',
                    ) {
                        Some(
                            LineView {
                                scope: Some(scope.name),
                                category: Some(category.name),
                                text: remainder(s, scope.end + 2),
                            },
                        )
                    } else {
                        None
                    },
                }
            },
        }
    }
}

/// The line as a change without a scope: `-`, the category, `:`, and then
/// the text, if any.
pub open spec fn unscoped_change(s: Seq<char>) -> Option<LineView> {
    if !has_char(s, 0, '-') {
        None
    } else {
        match token_at(s, 1) {
            None => None,
            Some(category) => if has_char(s, category.end, ':') {
                Some(
                    LineView {
                        scope: None,
                        category: Some(category.name),
                        text: remainder(s, category.end + 1),
                    },
                )
            } else {
                None
            },
        }
    }
}

/// The line as plain text: what follows an optional leading `-`.
pub open spec fn plain_text(s: Seq<char>) -> LineView {
    LineView {
        scope: None,
        category: None,
        text: remainder(
            s,
            if has_char(s, 0, '-') {
                1
            } else {
                0
            },
        ),
    }
}

/// What a line of a commit message says: the first of the three readings
/// that applies.
pub open spec fn parsed(s: Seq<char>) -> LineView {
    match scoped_change(s) {
        Some(line) => line,
        None => match unscoped_change(s) {
            Some(line) => line,
            None => plain_text(s),
        },
    }
}

/// The tag name that begins at position `i`, and where it ends.
fn token(v: &Vec<char>, i: usize) -> (r: Option<(String, usize)>)
    requires
        i <= v.len(),
    ensures
        match r {
            Some((name, end)) => token_at(v@, i as int) == Some(
                Token { name: name@, end: end as int },
            ) && i < end <= v.len(),
            None => token_at(v@, i as int) is None,
        },
{
    let a = scan_spaces(v, i);
    let b = scan_alphanumeric(v, a);
    if a < b {
        let name = lowered_string_of(v, a, b);
        let end = scan_spaces(v, b);
        Some((name, end))
    } else {
        None
    }
}

/// What stands from position `i` to the end of the line.
fn rest(v: &Vec<char>, i: usize) -> (r: Option<String>)
    ensures
        option_view(r) == remainder(v@, i as int),
{
    if i < v.len() {
        Some(string_of(v, i, v.len()))
    } else {
        None
    }
}

/// The line as plain text.
fn plain(v: &Vec<char>) -> (line: Line)
    ensures
        line@ == plain_text(v@),
{
    let from: usize = if v.len() > 0 && v[0] == '-' {
        1
    } else {
        0
    };
    Line { scope: None, category: None, text: rest(v, from) }
}

/// Parse an individual message line.
pub fn parse_line(line: &str) -> (parsed_line: Line)
    ensures
        parsed_line@ == parsed(line@),
{
    let v = chars_of(line);
    if v.len() == 0 || v[0] != '-' {
        return plain(&v);
    }
    let (category, j) = match token(&v, 1) {
        Some(found) => found,
        None => {
            return plain(&v);
        },
    };
    if j < v.len() && v[j] == ':' {
        return Line { scope: None, category: Some(category), text: rest(&v, j + 1) };
    }
    if !(j < v.len() && v[j] == '(') {
        return plain(&v);
    }
    let (scope, k) = match token(&v, j + 1) {
        Some(found) => found,
        None => {
            return plain(&v);
        },
    };
    if k < v.len() && v[k] == ')' && k + 1 < v.len() && v[k + 1] == ':' {
        Line { scope: Some(scope), category: Some(category), text: rest(&v, k + 2) }
    } else {
        plain(&v)
    }
}

/// Every character of `w` may pad a tag name.
pub open spec fn is_padding(w: Seq<char>) -> bool {
    forall|i: int| 0 <= i < w.len() ==> is_space(#[trigger] w[i])
}

/// `t` can stand as a tag name: one letter or digit or more.
pub open spec fn is_name(t: Seq<char>) -> bool {
    t.len() > 0 && forall|i: int| 0 <= i < t.len() ==> is_alphanumeric(#[trigger] t[i])
}

/// A written tag name: the name with padding on both sides.
pub open spec fn padded(before: Seq<char>, name: Seq<char>, after: Seq<char>) -> Seq<char> {
    before + name + after
}

/// The line `-`, category, `(`, scope, `):`, text.
pub open spec fn scoped_line(category: Seq<char>, scope: Seq<char>, text: Seq<char>) -> Seq<
    char,
> {
    seq!['-'] + category + seq!['('] + scope + seq![')', ':'] + text
}

/// The line `-`, category, `:`, text.
pub open spec fn unscoped_line(category: Seq<char>, text: Seq<char>) -> Seq<char> {
    seq!['-'] + category + seq![':'] + text
}

/// `text` as the text of a line: none where it is empty.
pub open spec fn text_of(text: Seq<char>) -> Option<Seq<char>> {
    if text.len() > 0 {
        Some(text)
    } else {
        None
    }
}

/// Where a padded name stands at position `i` and is followed by a
/// character that is neither padding nor letter nor digit, the token read at
/// `i` is that name in lower case, and it ends before that character.
proof fn lemma_token_at(
    s: Seq<char>,
    i: int,
    before: Seq<char>,
    name: Seq<char>,
    after: Seq<char>,
)
    requires
        0 <= i,
        is_padding(before),
        is_name(name),
        is_padding(after),
        i + before.len() + name.len() + after.len() < s.len(),
        s.subrange(i, i + before.len() + name.len() + after.len()) == padded(before, name, after),
        !is_space(s[i + before.len() + name.len() + after.len()]),
        !is_alphanumeric(s[i + before.len() + name.len() + after.len()]),
    ensures
        token_at(s, i) == Some(
            Token { name: lowered(name), end: i + before.len() + name.len() + after.len() },
        ),
{
    let a: int = i + before.len();
    let b: int = a + name.len();
    let e: int = b + after.len();
    let p = padded(before, name, after);
    assert forall|k: int| i <= k < e implies s[k] == p[k - i] by {
        assert(s.subrange(i, e)[k - i] == s[k]);
    }
    lemma_skip_spaces_run(s, i, a);
    lemma_skip_alphanumeric_run(s, a, b);
    lemma_skip_spaces_run(s, b, e);
    assert(s.subrange(a, b) =~= name);
}

/// A line of the shape `- category(scope): text` yields the category and
/// the scope in lower case, whatever padding surrounds them, and the text as
/// it stands; where nothing follows the colon, it yields no text.
pub proof fn lemma_scoped_line(
    w1: Seq<char>,
    category: Seq<char>,
    w2: Seq<char>,
    w3: Seq<char>,
    scope: Seq<char>,
    w4: Seq<char>,
    text: Seq<char>,
)
    requires
        is_padding(w1),
        is_padding(w2),
        is_padding(w3),
        is_padding(w4),
        is_name(category),
        is_name(scope),
    ensures
        parsed(scoped_line(padded(w1, category, w2), padded(w3, scope, w4), text)) == (LineView {
            scope: Some(lowered(scope)),
            category: Some(lowered(category)),
            text: text_of(text),
        }),
{
    let c = padded(w1, category, w2);
    let p = padded(w3, scope, w4);
    let s = scoped_line(c, p, text);
    let j: int = 1 + c.len() as int;
    let k: int = j + 1 + p.len() as int;
    assert(s.subrange(1, j) =~= c);
    assert(s.subrange(j + 1, k) =~= p);
    lemma_token_at(s, 1, w1, category, w2);
    lemma_token_at(s, j + 1, w3, scope, w4);
    assert(s.subrange(k + 2, s.len() as int) =~= text);
}

/// A line of the shape `- category: text` yields the category in lower
/// case, no scope, and the text as it stands; one of the shape `- category:`
/// with nothing after the colon yields the category alone.
pub proof fn lemma_unscoped_line(w1: Seq<char>, category: Seq<char>, w2: Seq<char>, text: Seq<char>)
    requires
        is_padding(w1),
        is_padding(w2),
        is_name(category),
    ensures
        parsed(unscoped_line(padded(w1, category, w2), text)) == (LineView {
            scope: None,
            category: Some(lowered(category)),
            text: text_of(text),
        }),
{
    let c = padded(w1, category, w2);
    let s = unscoped_line(c, text);
    let j: int = 1 + c.len() as int;
    assert(s.subrange(1, j) =~= c);
    lemma_token_at(s, 1, w1, category, w2);
    assert(s.subrange(j + 1, s.len() as int) =~= text);
}

/// The empty line holds nothing.
pub proof fn lemma_empty_line()
    ensures
        parsed(Seq::empty()) == blank_line(),
{
}

/// Tags are matched without regard to case or to the padding around them:
/// two lines whose categories and scopes agree in lower case, and whose
/// texts are the same, parse to the same line.
pub proof fn lemma_case_and_padding(
    w1: Seq<char>,
    category: Seq<char>,
    w2: Seq<char>,
    w3: Seq<char>,
    scope: Seq<char>,
    w4: Seq<char>,
    v1: Seq<char>,
    other_category: Seq<char>,
    v2: Seq<char>,
    v3: Seq<char>,
    other_scope: Seq<char>,
    v4: Seq<char>,
    text: Seq<char>,
)
    requires
        is_padding(w1),
        is_padding(w2),
        is_padding(w3),
        is_padding(w4),
        is_padding(v1),
        is_padding(v2),
        is_padding(v3),
        is_padding(v4),
        is_name(category),
        is_name(scope),
        is_name(other_category),
        is_name(other_scope),
        lowered(category) == lowered(other_category),
        lowered(scope) == lowered(other_scope),
    ensures
        parsed(scoped_line(padded(w1, category, w2), padded(w3, scope, w4), text)) == parsed(
            scoped_line(padded(v1, other_category, v2), padded(v3, other_scope, v4), text),
        ),
{
    lemma_scoped_line(w1, category, w2, w3, scope, w4, text);
    lemma_scoped_line(v1, other_category, v2, v3, other_scope, v4, text);
}

/// A line never holds a scope without a category, and it holds neither
/// category nor text only where it is empty or a lone `-`.
pub proof fn lemma_line_shape(s: Seq<char>)
    ensures
        parsed(s).scope is Some ==> parsed(s).category is Some,
        parsed(s).category is Some ==> parsed(s).category->0.len() > 0,
        parsed(s).category is None && parsed(s).text is None <==> s.len() == 0 || s == seq!['-'],
{
    if has_char(s, 0, '-') {
        if s.len() == 1 {
            assert(s =~= seq!['-']);
        } else {
            lemma_skip_spaces_bounds(s, 1);
            lemma_skip_alphanumeric_bounds(s, skip_spaces(s, 1));
        }
    }
}

} // verus!
