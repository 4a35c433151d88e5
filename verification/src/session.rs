//! One step of the conversation with the user: a line in, a reply out.

use vstd::prelude::*;
use crate::chars::{all_spaces, characters, is_space, is_whitespace};
use crate::grammar::skip_spaces;
use crate::operation::{parse, MathStringParseError, Operation};
use crate::rational::{EvalError, Rational};

verus! {

/// A text without the white space that it starts with.
pub open spec fn trim_start(s: Seq<char>) -> Seq<char>
    decreases s.len(),
{
    if s.len() > 0 && is_space(s[0]) {
        trim_start(s.drop_first())
    } else {
        s
    }
}

/// A text without the white space that it ends with.
pub open spec fn trim_end(s: Seq<char>) -> Seq<char>
    decreases s.len(),
{
    if s.len() > 0 && is_space(s.last()) {
        trim_end(s.drop_last())
    } else {
        s
    }
}

/// A text without the white space around it.
pub open spec fn trim(s: Seq<char>) -> Seq<char> {
    trim_end(trim_start(s))
}

/// The line is the word `quit`, in lower case, with nothing but white space
/// around it.
pub open spec fn is_quit(line: Seq<char>) -> bool {
    trim(line) == seq!['q', 'u', 'i', 't']
}

/// `trim_start` drops the white space up to the first character that is none.
pub proof fn lemma_trim_start(s: Seq<char>, start: int)
    requires
        0 <= start <= s.len(),
        all_spaces(s, 0, start),
        start < s.len() ==> !is_space(s[start]),
    ensures
        trim_start(s) == s.subrange(start, s.len() as int),
    decreases s.len(),
{
    if start > 0 {
        let rest = s.drop_first();
        assert(all_spaces(rest, 0, start - 1));
        lemma_trim_start(rest, start - 1);
    }
}

/// `trim_end` drops the white space after the last character that is none.
pub proof fn lemma_trim_end(s: Seq<char>, end: int)
    requires
        0 <= end <= s.len(),
        all_spaces(s, end, s.len() as int),
        0 < end ==> !is_space(s[end - 1]),
    ensures
        trim_end(s) == s.subrange(0, end),
    decreases s.len(),
{
    if end < s.len() {
        lemma_trim_end(s.drop_last(), end);
    }
}

/// The word `quit` asks to leave, whatever white space stands around it.
pub proof fn lemma_quit_in_white_space(before: Seq<char>, after: Seq<char>)
    requires
        all_spaces(before, 0, before.len() as int),
        all_spaces(after, 0, after.len() as int),
    ensures
        is_quit(before + seq!['q', 'u', 'i', 't'] + after),
{
    let word = seq!['q', 'u', 'i', 't'];
    let line = before + word + after;
    let start = before.len() as int;
    assert(all_spaces(line, 0, start));
    lemma_trim_start(line, start);
    let rest = line.subrange(start, line.len() as int);
    assert(all_spaces(rest, 4, rest.len() as int));
    lemma_trim_end(rest, 4);
    assert(rest.subrange(0, 4) == word);
}

/// Tells whether a line asks to leave.
pub fn is_quit_command(line: &[char]) -> (quit: bool)
    ensures
        quit == is_quit(line@),
{
    let start = skip_spaces(line, 0);
    let mut end = line.len();
    while end > start && is_whitespace(line[end - 1])
        invariant
            start <= end <= line@.len(),
            all_spaces(line@, end as int, line@.len() as int),
        decreases end,
    {
        end -= 1;
    }
    let quit = end - start == 4 && line[start] == 'q' && line[start + 1] == 'u' && line[start + 2]
        == 'i' && line[start + 3] == 't';
    proof {
        // What is left of the line between `start` and `end` is `trim(line)`.
        let rest = line@.subrange(start as int, line@.len() as int);
        let word = line@.subrange(start as int, end as int);
        lemma_trim_start(line@, start as int);
        assert(all_spaces(rest, end - start, rest.len() as int));
        lemma_trim_end(rest, end - start);
        assert(rest.subrange(0, end - start) == word);
        if quit {
            assert(word == seq!['q', 'u', 'i', 't']);
        }
    }
    quit
}

/// What to answer to a line.
#[derive(Debug, PartialEq, Eq, Clone, Copy)]
pub enum Reply {
    /// The line asks to leave.
    Quit,
    /// The line is a calculation, and this is its result.
    Answer(Rational),
    /// The line is no calculation.
    Rejected(MathStringParseError),
    /// The line is a calculation without a result.
    Failed(EvalError),
}

/// The reply that a line is owed. A line that asks to leave is never read as
/// a calculation.
pub open spec fn answers(line: Seq<char>, reply: Reply) -> bool {
    if is_quit(line) {
        reply == Reply::Quit
    } else {
        match parse(line) {
            Err(e) => reply == Reply::Rejected(e),
            Ok(op) => match op.value() {
                Ok(q) => reply matches Reply::Answer(r) && r@ == q,
                Err(e) => reply == Reply::Failed(e),
            },
        }
    }
}

/// Answers one line: leaves on `quit`, else reads the line as a calculation
/// and carries it out.
pub fn respond(input: &str) -> (reply: Reply)
    ensures
        answers(input@, reply),
{
    let line = characters(input);
    if is_quit_command(line.as_slice()) {
        return Reply::Quit;
    }
    match Operation::from_chars(line.as_slice()) {
        Err(e) => Reply::Rejected(e),
        Ok(op) => match op.execute() {
            Ok(r) => Reply::Answer(r),
            Err(e) => Reply::Failed(e),
        },
    }
}

} // verus!
