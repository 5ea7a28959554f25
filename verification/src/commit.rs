//! Commits: the subject line, the change number, and the lines of the
//! message.

use crate::line::{option_view, parsed, LineView};
pub use crate::line::{parse_line, Line};
use crate::text::{
    chars_of, decimal, decimal_of, find, find_first, find_first_from, find_from, find_last, join,
    joined, lines, lines_of, number_of, parse_u32, rfind, trim, trimmed,
};
use chrono::DateTime;
use vstd::prelude::*;
use vstd::string::StringExecFns;

verus! {

/// A single commit
#[derive(Debug, PartialEq, Eq)]
pub struct Commit {
    /// The SHA
    pub sha: String,
    /// The author
    pub author: String,
    /// The timestamp
    pub time: String,
    /// The summary
    pub summary: String,
    /// The change number
    pub number: Option<u32>,
    /// The message
    pub message: String,
}

/// What a `Commit` holds, as sequences of characters.
pub struct CommitView {
    pub sha: Seq<char>,
    pub author: Seq<char>,
    pub time: Seq<char>,
    pub summary: Seq<char>,
    pub number: Option<u32>,
    pub message: Seq<char>,
}

impl View for Commit {
    type V = CommitView;

    open spec fn view(&self) -> CommitView {
        CommitView {
            sha: self.sha@,
            author: self.author@,
            time: self.time@,
            summary: self.summary@,
            number: self.number,
            message: self.message@,
        }
    }
}

impl DeepView for Commit {
    type V = CommitView;

    open spec fn deep_view(&self) -> CommitView {
        self@
    }
}

impl Default for Commit {
    fn default() -> (commit: Commit)
        ensures
            commit@ == (CommitView {
                sha: Seq::empty(),
                author: Seq::empty(),
                time: Seq::empty(),
                summary: Seq::empty(),
                number: None,
                message: Seq::empty(),
            }),
    {
        Commit {
            sha: String::new(),
            author: String::new(),
            time: String::new(),
            summary: String::new(),
            number: None,
            message: String::new(),
        }
    }
}

/// The two characters that open a change number.
pub open spec fn number_opener() -> Seq<char> {
    seq!['(', '#']
}

/// The summary of a subject line: what stands before the first `(#`,
/// without the white space around it.
pub open spec fn summary_of(subject: Seq<char>) -> Seq<char> {
    let cut = match find(subject, number_opener()) {
        Some(p) => p,
        None => subject.len() as int,
    };
    trimmed(subject.take(cut))
}

/// The change number of a subject line: the number of its last tag of the
/// form `(#N)`, that is the number written between the last `(#` and the
/// first `)` behind it, whatever follows that tag.
pub open spec fn number_in(subject: Seq<char>) -> Option<u32> {
    match rfind(subject, number_opener()) {
        Some(open) => match find_from(subject, seq![')'], open + 2) {
            Some(close) => number_of(subject.subrange(open + 2, close)),
            None => None,
        },
        None => None,
    }
}

/// A time written as in RFC 2822, written anew in a format of `strftime`,
/// in its own time zone; nothing where the time is not written so, or where
/// the format is none.
pub uninterp spec fn time_text(time: Seq<char>, format: Seq<char>) -> Option<Seq<char>>;

/// `DateTime::format` of the crate chrono, written out, on the time that
/// `DateTime::parse_from_rfc2822` reads; nothing where the time cannot be
/// read or the format cannot be written. The contract claims only that the
/// outcome is determined by the two texts: it is the value that `time_text`
/// names.
#[verifier::external_body]
fn format_time(time: &str, format: &str) -> (out: Option<String>)
    ensures
        option_view(out) == time_text(time@, format@),
{
    let parsed = match DateTime::parse_from_rfc2822(time) {
        Ok(parsed) => parsed,
        Err(_) => return None,
    };
    let mut out = String::new();
    match parsed.format(format).write_to(&mut out) {
        Ok(()) => Some(out),
        Err(_) => None,
    }
}

/// The time of a commit as it is shown: written anew where that can be
/// done, else as it stands.
pub open spec fn shown_time(time: Seq<char>, formatted: Option<Seq<char>>) -> Seq<char> {
    match formatted {
        Some(text) => text,
        None => time,
    }
}

/// The time of a commit as it is shown, given what writing it anew gave.
pub fn show_time(time: String, formatted: Option<String>) -> (shown: String)
    ensures
        shown@ == shown_time(time@, option_view(formatted)),
{
    match formatted {
        Some(text) => text,
        None => time,
    }
}

/// The commit that the lines describe, with its time in the given format.
pub fn parse(lines: &Vec<String>, date_format: &str) -> (commit: Commit)
    requires
        lines.len() >= 4,
    ensures
        commit@ == (CommitView {
            sha: lines[0]@,
            author: lines[1]@,
            time: shown_time(lines[2]@, time_text(lines[2]@, date_format@)),
            summary: summary_of(lines[3]@),
            number: number_in(lines[3]@),
            message: joined(lines.deep_view().skip(4), seq!['\n']),
        }),
{
    proof {
        reveal_strlit("\n");
        assert("\n"@ =~= seq!['\n']);
    }
    let formatted = format_time(lines[2].as_str(), date_format);
    Commit {
        sha: lines[0].clone(),
        author: lines[1].clone(),
        time: show_time(lines[2].clone(), formatted),
        summary: parse_subject(lines[3].as_str()),
        number: parse_number(lines[3].as_str()),
        message: join(lines, 4, "\n"),
    }
}

/// The lines of a commit message.
pub open spec fn message_lines(message: Seq<char>) -> Seq<LineView> {
    lines_of(message).map_values(|l: Seq<char>| parsed(l))
}

/// Parse the commit subject removing the number tags.
pub fn parse_subject(line: &str) -> (summary: String)
    ensures
        summary@ == summary_of(line@),
{
    let v = chars_of(line);
    let opener: Vec<char> = vec!['(', '#'];
    let cut = match find_first(&v, &opener) {
        Some(p) => p,
        None => v.len(),
    };
    trim(&v, cut)
}

/// Parse the commit number: the number of the last `(#N)` tag of the
/// subject.
pub fn parse_number(line: &str) -> (number: Option<u32>)
    ensures
        number == number_in(line@),
{
    let v = chars_of(line);
    let opener: Vec<char> = vec!['(', '#'];
    let closer: Vec<char> = vec![')'];
    assert(opener@ == number_opener());
    assert(closer@ == seq![')']);
    match find_last(&v, &opener) {
        Some(open) => match find_first_from(&v, &closer, open + 2) {
            Some(close) => parse_u32(&v, open + 2, close),
            None => None,
        },
        None => None,
    }
}

impl Commit {
    /// The commit that the lines describe: the SHA, the author, the time
    /// and the subject, one line each, and then the message.
    pub fn from_lines(lines: Vec<String>) -> (commit: Commit)
        requires
            lines.len() >= 4,
        ensures
            commit@ == (CommitView {
                sha: lines[0]@,
                author: lines[1]@,
                time: lines[2]@,
                summary: summary_of(lines[3]@),
                number: number_in(lines[3]@),
                message: joined(lines.deep_view().skip(4), seq!['\n']),
            }),
    {
        proof {
            reveal_strlit("\n");
            assert("\n"@ =~= seq!['\n']);
        }
        Commit {
            sha: lines[0].clone(),
            author: lines[1].clone(),
            time: lines[2].clone(),
            summary: parse_subject(lines[3].as_str()),
            number: parse_number(lines[3].as_str()),
            message: join(&lines, 4, "\n"),
        }
    }

    /// The commit in a few words: the SHA, a colon, the summary.
    pub fn to_string(&self) -> (s: String)
        ensures
            s@ == self.sha@ + seq![':'] + self.summary@,
    {
        let mut s = self.sha.clone();
        s.push(':');
        s.append(self.summary.as_str());
        s
    }

    /// The lines of the message, each one parsed.
    pub fn lines(&self) -> (parsed_lines: Vec<Line>)
        ensures
            parsed_lines.deep_view() == message_lines(self.message@),
    {
        let raw = lines(self.message.as_str());
        let mut out: Vec<Line> = Vec::new();
        let mut i: usize = 0;
        while i < raw.len()
            invariant
                i <= raw.len(),
                raw.deep_view() == lines_of(self.message@),
                out.deep_view() == message_lines(self.message@).take(i as int),
            decreases raw.len() - i,
        {
            let line = parse_line(raw[i].as_str());
            let ghost before = out.deep_view();
            out.push(line);
            assert(before.push(line@) == message_lines(self.message@).take(i + 1));
            i += 1;
        }
        out
    }

    /// The lines of the message, to be taken one by one.
    pub fn into_iter(&self) -> (message: CommitMessage)
        ensures
            message.remaining() == lines_of(self.message@),
    {
        CommitMessage { lines: lines(self.message.as_str()) }
    }
}

/// The commits in the opposite order.
pub fn reversed(commits: Vec<Commit>) -> (out: Vec<Commit>)
    ensures
        out.deep_view() == commits.deep_view().reverse(),
{
    let ghost all = commits.deep_view();
    let mut commits = commits;
    let mut out: Vec<Commit> = Vec::new();
    while commits.len() > 0
        invariant
            commits.deep_view() + out.deep_view().reverse() == all,
        decreases commits.len(),
    {
        let commit = commits.pop().unwrap();
        out.push(commit);
    }
    out
}

/// The commit message: its lines that are still to be read.
pub struct CommitMessage {
    lines: Vec<String>,
}

impl CommitMessage {
    /// The lines that are still to be read, first one first.
    pub closed spec fn remaining(&self) -> Seq<Seq<char>> {
        self.lines.deep_view()
    }

    /// The next line, parsed, or nothing at the end of the message.
    pub fn next(&mut self) -> (line: Option<Line>)
        ensures
            match line {
                Some(l) => old(self).remaining().len() > 0 && l@ == parsed(
                    old(self).remaining()[0],
                ) && final(self).remaining() == old(self).remaining().drop_first(),
                None => old(self).remaining().len() == 0 && final(self).remaining() == old(
                    self,
                ).remaining(),
            },
    {
        if self.lines.len() == 0 {
            None
        } else {
            let first = self.lines.remove(0);
            Some(parse_line(first.as_str()))
        }
    }
}

/// A list of commit revisions
pub struct CommitList {
    /// The log command
    input: String,
    /// The commits in the log
    commits: Vec<String>,
}

impl CommitList {
    /// The arguments that the list was asked with, joined by spaces.
    pub closed spec fn input(&self) -> Seq<char> {
        self.input@
    }

    /// The revisions that are still to be read; the last one is read first.
    pub closed spec fn revisions(&self) -> Seq<Seq<char>> {
        self.commits.deep_view()
    }

    /// The list for the given `git log` arguments and the revisions that
    /// `git log` names for them.
    pub fn new(git_log_args: &Vec<String>, commits: Vec<String>) -> (list: CommitList)
        ensures
            list.input() == joined(git_log_args.deep_view(), seq![' ']),
            list.revisions() == commits.deep_view(),
    {
        proof {
            reveal_strlit(" ");
            assert(" "@ =~= seq![' ']);
            assert(git_log_args.deep_view().skip(0) == git_log_args.deep_view());
        }
        CommitList { input: join(git_log_args, 0, " "), commits }
    }

    /// The number of revisions that are still to be read.
    pub fn len(&self) -> (n: usize)
        ensures
            n == self.revisions().len(),
    {
        self.commits.len()
    }

    /// The revision to read next, or nothing at the end of the list.
    pub fn next(&mut self) -> (revision: Option<String>)
        ensures
            final(self).input() == old(self).input(),
            match revision {
                Some(r) => old(self).revisions().len() > 0 && r@ == old(self).revisions().last()
                    && final(self).revisions() == old(self).revisions().drop_last(),
                None => old(self).revisions().len() == 0 && final(self).revisions() == old(
                    self,
                ).revisions(),
            },
    {
        self.commits.pop()
    }

    /// The list in a few words: the arguments, and how many commits they
    /// name.
    pub fn to_string(&self) -> (s: String)
        ensures
            s@ == self.input() + seq![' ', '('] + decimal_of(self.revisions().len())
                + seq![' ', 'c', 'o', 'm', 'm', 'i', 't', 's', ')'],
    {
        proof {
            reveal_strlit(" (");
            reveal_strlit(" commits)");
        }
        let mut s = self.input.clone();
        s.append(" (");
        s.append(decimal(self.commits.len()).as_str());
        s.append(" commits)");
        s
    }
}

} // verus!
