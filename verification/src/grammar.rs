//! The shape of a line of two operands: where the operands and the operator
//! symbol lie in it.

use vstd::prelude::*;
use crate::chars::{all_digits, all_spaces, is_decimal_digit, is_digit, is_space, is_whitespace};

verus! {

/// Where the parts of a two-operand expression lie in a line: the left
/// operand is `[left, left_end)`, the operator symbol stands at `operator`, and
/// the right operand is `[right, right_end)`.
pub struct Split {
    pub left: int,
    pub left_end: int,
    pub operator: int,
    pub right: int,
    pub right_end: int,
}

/// The grammar of a line: white space, digits, white space, one symbol that is
/// no white space, white space, digits, white space, and nothing else. Each
/// run of white space may be empty, each run of digits holds at least one.
pub open spec fn splits(s: Seq<char>, p: Split) -> bool {
    &&& 0 <= p.left < p.left_end <= p.operator < p.right < p.right_end <= s.len()
    &&& all_spaces(s, 0, p.left)
    &&& all_digits(s, p.left, p.left_end)
    &&& all_spaces(s, p.left_end, p.operator)
    &&& !is_space(s[p.operator])
    &&& all_spaces(s, p.operator + 1, p.right)
    &&& all_digits(s, p.right, p.right_end)
    &&& all_spaces(s, p.right_end, s.len() as int)
}

/// The line is an expression of the grammar.
pub open spec fn parsable(s: Seq<char>) -> bool {
    exists|p: Split| splits(s, p)
}

/// A digit is no white space, so it can stand as the operator symbol, and a
/// line such as `1234` splits in more than one way. The split that counts is
/// the one with the longest left operand.
pub open spec fn preferred(s: Seq<char>, p: Split) -> bool {
    &&& splits(s, p)
    &&& forall|q: Split| splits(s, q) ==> q.left_end <= p.left_end
}

/// The split of a parsable line.
pub open spec fn the_split(s: Seq<char>) -> Split {
    choose|p: Split| preferred(s, p)
}

/// A split is fixed by the end of its left operand.
pub proof fn lemma_split_determined(s: Seq<char>, p: Split, q: Split)
    requires
        splits(s, p),
        splits(s, q),
        p.left_end == q.left_end,
    ensures
        p == q,
{
    lemma_same_start(s, p, q);
    // A digit is no white space: neither split can go on where the other
    // has come to its next part.
    if p.right < q.right {
        assert(is_space(s[p.right]));
    }
    if q.right < p.right {
        assert(is_space(s[q.right]));
    }
    if p.right_end < q.right_end {
        assert(is_digit(s[p.right_end]));
    }
    if q.right_end < p.right_end {
        assert(is_digit(s[q.right_end]));
    }
}

/// Every split of a line starts its left operand at the same place.
pub proof fn lemma_same_start(s: Seq<char>, p: Split, q: Split)
    requires
        splits(s, p),
        splits(s, q),
    ensures
        p.left == q.left,
{
    if p.left < q.left {
        assert(is_space(s[p.left]));
    }
    if q.left < p.left {
        assert(is_space(s[q.left]));
    }
}

/// A line has at most one preferred split, and `the_split` is that one.
pub proof fn lemma_preferred_is_the_split(s: Seq<char>, p: Split)
    requires
        preferred(s, p),
    ensures
        parsable(s),
        the_split(s) == p,
{
    let q = the_split(s);
    lemma_split_determined(s, p, q);
}

/// First position at or after `from` that holds no white space.
pub fn skip_spaces(line: &[char], from: usize) -> (to: usize)
    requires
        from <= line@.len(),
    ensures
        from <= to <= line@.len(),
        all_spaces(line@, from as int, to as int),
        to < line@.len() ==> !is_space(line@[to as int]),
{
    let mut to = from;
    while to < line.len() && is_whitespace(line[to])
        invariant
            from <= to <= line@.len(),
            all_spaces(line@, from as int, to as int),
        decreases line@.len() - to,
    {
        to += 1;
    }
    to
}

/// First position at or after `from` that holds no decimal digit.
pub fn skip_digits(line: &[char], from: usize) -> (to: usize)
    requires
        from <= line@.len(),
    ensures
        from <= to <= line@.len(),
        all_digits(line@, from as int, to as int),
        to < line@.len() ==> !is_digit(line@[to as int]),
{
    let mut to = from;
    while to < line.len() && is_decimal_digit(line[to])
        invariant
            from <= to <= line@.len(),
            all_digits(line@, from as int, to as int),
        decreases line@.len() - to,
    {
        to += 1;
    }
    to
}

/// The positions of a `Split`, as the scanner hands them out.
#[derive(Clone, Copy, Debug, PartialEq, Eq)]
pub struct Tokens {
    pub left: usize,
    pub left_end: usize,
    pub operator: usize,
    pub right: usize,
    pub right_end: usize,
}

impl View for Tokens {
    type V = Split;

    open spec fn view(&self) -> Split {
        Split {
            left: self.left as int,
            left_end: self.left_end as int,
            operator: self.operator as int,
            right: self.right as int,
            right_end: self.right_end as int,
        }
    }
}

/// Looks for the split whose left operand is `[left, left_end)`.
fn complete(line: &[char], left: usize, left_end: usize) -> (found: Option<Tokens>)
    requires
        left < left_end <= line@.len(),
        all_spaces(line@, 0, left as int),
        all_digits(line@, left as int, left_end as int),
    ensures
        match found {
            Some(t) => splits(line@, t@) && t.left == left && t.left_end == left_end,
            None => forall|q: Split| splits(line@, q) ==> q.left_end != left_end,
        },
{
    let operator = skip_spaces(line, left_end);
    if operator == line.len() {
        return None;
    }
    let right = skip_spaces(line, operator + 1);
    let right_end = skip_digits(line, right);
    let rest = skip_spaces(line, right_end);
    let t = Tokens { left, left_end, operator, right, right_end };
    if right < right_end && rest == line.len() {
        Some(t)
    } else {
        assert forall|q: Split| splits(line@, q) implies q.left_end != left_end by {
            if q.left_end == left_end {
                lemma_follows_left_operand(line@, q, operator as int, right as int, right_end as int);
            }
        }
        None
    }
}

/// What follows the left operand of a split is found by skipping white
/// space, one symbol, white space, and digits.
proof fn lemma_follows_left_operand(s: Seq<char>, q: Split, operator: int, right: int, right_end: int)
    requires
        splits(s, q),
        q.left_end <= operator < right <= right_end <= s.len(),
        all_spaces(s, q.left_end, operator),
        !is_space(s[operator]),
        all_spaces(s, operator + 1, right),
        right < s.len() ==> !is_space(s[right]),
        all_digits(s, right, right_end),
        right_end < s.len() ==> !is_digit(s[right_end]),
    ensures
        q.operator == operator,
        q.right == right,
        q.right_end == right_end,
{
    if q.right < right {
        assert(is_digit(s[q.right]));
    }
    if q.right_end < right_end {
        assert(is_space(s[q.right_end]));
    }
}

/// When the digits that start a line run up to `run_end`, and some split ends
/// its left operand two or more digits before that, the left operand may as
/// well end exactly two digits before: the last two digits of the run are then
/// the operator symbol and the right operand.
proof fn lemma_short_left_operand(s: Seq<char>, q: Split, run_end: int)
    requires
        splits(s, q),
        q.left_end + 2 <= run_end <= s.len(),
        all_digits(s, q.left, run_end),
        run_end < s.len() ==> !is_digit(s[run_end]),
    ensures
        splits(
            s,
            Split {
                left: q.left,
                left_end: run_end - 2,
                operator: run_end - 2,
                right: run_end - 1,
                right_end: run_end,
            },
        ),
{
    lemma_follows_left_operand(s, q, q.left_end, q.left_end + 1, run_end);
}

/// Finds the split of a line, or finds that the line is no expression.
pub fn scan(line: &[char]) -> (found: Option<Tokens>)
    ensures
        match found {
            Some(t) => preferred(line@, t@),
            None => !parsable(line@),
        },
{
    let left = skip_spaces(line, 0);
    let run_end = skip_digits(line, left);
    assert forall|q: Split| splits(line@, q) implies q.left == left && q.left_end <= run_end by {
        if q.left < left {
            assert(is_digit(line@[q.left]));
        }
    }
    if run_end == left {
        return None;
    }
    // The longest left operand first: the whole run of digits.
    let whole = complete(line, left, run_end);
    if whole.is_some() {
        return whole;
    }
    if run_end - left < 2 {
        return None;
    }
    // Then the last digit of the run as the operator symbol.
    let last = complete(line, left, run_end - 1);
    if last.is_some() {
        return last;
    }
    if run_end - left < 3 {
        return None;
    }
    // Then the last but one as the symbol, the last as the right operand. If
    // that fails, so does every shorter left operand.
    let last_but_one = complete(line, left, run_end - 2);
    if last_but_one.is_none() {
        assert forall|q: Split| splits(line@, q) implies false by {
            if q.left_end + 2 <= run_end {
                lemma_short_left_operand(line@, q, run_end as int);
            }
        }
    }
    last_but_one
}

} // verus!
