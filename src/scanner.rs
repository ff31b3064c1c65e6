//! The bracket- and quote-aware scanner that locates a marker on a line.

use vstd::prelude::*;
use crate::error::{ErrorKind, ParseError};
use crate::text::{has_prefix, starts_with_at};

verus! {

/// What the scanner looks for: one character or a fixed string.
pub enum Matcher {
    Char(char),
    Text(Vec<char>),
}

impl View for Matcher {
    type V = Seq<char>;

    open spec fn view(&self) -> Seq<char> {
        match self {
            Matcher::Char(c) => seq![*c],
            Matcher::Text(t) => t@,
        }
    }
}

/// The pattern `p` occurs in `s` at position `i`.
pub open spec fn matches_at(s: Seq<char>, p: Seq<char>, i: int) -> bool {
    has_prefix(s.subrange(i, s.len() as int), p)
}

pub open spec fn is_open(c: char) -> bool {
    c == '(' || c == '[' || c == '{'
}

pub open spec fn is_close(c: char) -> bool {
    c == ')' || c == ']' || c == '}'
}

/// The opening bracket that the closing bracket `c` must meet.
pub open spec fn opener(c: char) -> char {
    if c == ')' {
        '('
    } else if c == ']' {
        '['
    } else {
        '{'
    }
}

/// The effect of one character on the state (inside single quotes, inside
/// double quotes, open brackets).
pub open spec fn step(c: char, sq: bool, dq: bool, st: Seq<char>) -> Result<
    (bool, bool, Seq<char>),
    ErrorKind,
> {
    if c == '"' && !sq {
        Ok((sq, !dq, st))
    } else if c == '\'' && !dq {
        Ok((!sq, dq, st))
    } else if sq || dq {
        Ok((sq, dq, st))
    } else if is_open(c) {
        Ok((sq, dq, st.push(c)))
    } else if is_close(c) {
        if st.len() == 0 {
            Err(ErrorKind::ExtraClosingBracket(c))
        } else if st.last() != opener(c) {
            Err(ErrorKind::BracketMismatch)
        } else {
            Ok((sq, dq, st.drop_last()))
        }
    } else {
        Ok((sq, dq, st))
    }
}

/// Scanning `s` from position `i`: the first position, outside quotes (and,
/// unless `anywhere`, outside brackets), where `m` matches, with the open
/// brackets at that point; or no position and the open brackets at the end
/// of the line.
pub open spec fn scan_from(s: Seq<char>, m: Seq<char>, anywhere: bool, i: int, sq: bool, dq: bool, st: Seq<char>) -> Result<
    (Option<int>, Seq<char>),
    ErrorKind,
>
    decreases s.len() - i,
{
    if i < 0 || i >= s.len() {
        Ok((None, st))
    } else if !sq && !dq && (anywhere || st.len() == 0) && matches_at(s, m, i) {
        Ok((Some(i), st))
    } else {
        match step(s[i], sq, dq, st) {
            Err(k) => Err(k),
            Ok((a, b, t)) => scan_from(s, m, anywhere, i + 1, a, b, t),
        }
    }
}

/// The result of scanning a whole line, quotes closed at its start.
pub open spec fn find_spec(s: Seq<char>, m: Seq<char>, anywhere: bool, st: Seq<char>) -> Result<
    (Option<int>, Seq<char>),
    ErrorKind,
> {
    scan_from(s, m, anywhere, 0, false, false, st)
}

/// The open brackets after the whole of `s` from position `i`, ignoring any marker.
pub open spec fn brackets_from(s: Seq<char>, i: int, sq: bool, dq: bool, st: Seq<char>) -> Result<
    Seq<char>,
    ErrorKind,
>
    decreases s.len() - i,
{
    if i < 0 || i >= s.len() {
        Ok(st)
    } else {
        match step(s[i], sq, dq, st) {
            Err(k) => Err(k),
            Ok((a, b, t)) => brackets_from(s, i + 1, a, b, t),
        }
    }
}

/// Every bracket of `s` outside quotes is closed, in order, within `s`.
pub open spec fn balanced(s: Seq<char>) -> bool {
    brackets_from(s, 0, false, false, Seq::empty()) == Ok::<Seq<char>, ErrorKind>(Seq::empty())
}

proof fn lemma_step_prefix(c: char, sq: bool, dq: bool, x: Seq<char>, pre: Seq<char>)
    requires
        step(c, sq, dq, x) is Ok,
    ensures
        step(c, sq, dq, pre + x) matches Ok((a, b, t)) && step(c, sq, dq, x) matches Ok(
            (a2, b2, t2),
        ) && a == a2 && b == b2 && t == pre + t2,
{
    if is_close(c) && !sq && !dq && !(c == '"') && !(c == '\'') {
        assert((pre + x).last() == x.last());
        assert((pre + x).drop_last() =~= pre + x.drop_last());
    }
    if is_open(c) {
        assert((pre + x).push(c) =~= pre + x.push(c));
    }
}

proof fn lemma_brackets_prefix(s: Seq<char>, i: int, sq: bool, dq: bool, x: Seq<char>, pre: Seq<char>)
    requires
        brackets_from(s, i, sq, dq, x) is Ok,
    ensures
        brackets_from(s, i, sq, dq, pre + x) matches Ok(t) && brackets_from(s, i, sq, dq, x)
            matches Ok(t2) && t == pre + t2,
    decreases s.len() - i,
{
    if !(i < 0 || i >= s.len()) {
        lemma_step_prefix(s[i], sq, dq, x, pre);
        let (a, b, t) = step(s[i], sq, dq, x)->Ok_0;
        lemma_brackets_prefix(s, i + 1, a, b, t, pre);
    }
}

proof fn lemma_scan_brackets(s: Seq<char>, m: Seq<char>, anywhere: bool, i: int, sq: bool, dq: bool, st: Seq<char>)
    requires
        brackets_from(s, i, sq, dq, st) is Ok,
    ensures
        scan_from(s, m, anywhere, i, sq, dq, st) is Ok,
        scan_from(s, m, anywhere, i, sq, dq, st) matches Ok((None, out)) ==> brackets_from(s, i, sq, dq, st)
            == Ok::<Seq<char>, ErrorKind>(out),
    decreases s.len() - i,
{
    if !(i < 0 || i >= s.len()) {
        if let Ok((a, b, t)) = step(s[i], sq, dq, st) {
            lemma_scan_brackets(s, m, anywhere, i + 1, a, b, t);
        }
    }
}

/// On a line whose brackets balance, the scan never fails, and when it finds
/// no marker it hands back the brackets that were open before the line.
pub proof fn lemma_balanced_line_keeps_brackets(s: Seq<char>, m: Seq<char>, anywhere: bool, st: Seq<char>)
    requires
        balanced(s),
    ensures
        find_spec(s, m, anywhere, st) is Ok,
        find_spec(s, m, anywhere, st) matches Ok((None, out)) ==> out == st,
{
    lemma_brackets_prefix(s, 0, false, false, Seq::empty(), st);
    assert(st + Seq::<char>::empty() =~= st);
    lemma_scan_brackets(s, m, anywhere, 0, false, false, st);
}

/// The scan fails only on a bracket.
pub proof fn lemma_scan_error_kind(s: Seq<char>, m: Seq<char>, anywhere: bool, i: int, sq: bool, dq: bool, st: Seq<char>)
    ensures
        scan_from(s, m, anywhere, i, sq, dq, st) matches Err(k) ==> k
            != ErrorKind::UnterminatedContinuation && k != ErrorKind::IndentationExpected,
    decreases s.len() - i,
{
    if 0 <= i < s.len() {
        if let Ok((a, b, t)) = step(s[i], sq, dq, st) {
            lemma_scan_error_kind(s, m, anywhere, i + 1, a, b, t);
        }
    }
}

/// A position that the scan reports lies on the line and holds the pattern.
pub proof fn lemma_scan_found(s: Seq<char>, m: Seq<char>, anywhere: bool, i: int, sq: bool, dq: bool, st: Seq<char>)
    requires
        i >= 0,
    ensures
        scan_from(s, m, anywhere, i, sq, dq, st) matches Ok((Some(k), _)) ==> i <= k < s.len()
            && matches_at(s, m, k),
    decreases s.len() - i,
{
    if i < s.len() {
        if let Ok((a, b, t)) = step(s[i], sq, dq, st) {
            lemma_scan_found(s, m, anywhere, i + 1, a, b, t);
        }
    }
}

fn matches_here(s: &Vec<char>, m: &Matcher, i: usize) -> (r: bool)
    requires
        i < s@.len(),
    ensures
        r == matches_at(s@, m@, i as int),
{
    match m {
        Matcher::Char(c) => {
            assert(s@.subrange(i as int, s@.len() as int).subrange(0, 1) =~= seq![s@[i as int]]);
            let r = s[i] == *c;
            if r {
                assert(seq![s@[i as int]] =~= seq![*c]);
            } else {
                assert(seq![s@[i as int]][0] != seq![*c][0]);
            }
            r
        },
        Matcher::Text(t) => starts_with_at(s, i, t),
    }
}

/// Finds the first position of `p` in `s` that lies outside quotes (and,
/// unless `anywhere`, outside brackets), carrying
/// the stack of open brackets from `previous_parentheses` through the line.
pub fn find(filename: &str, lineno: usize, s: &Vec<char>, p: &Matcher, anywhere: bool, previous_parentheses: Vec<char>) -> (r:
    Result<(Option<usize>, Vec<char>), ParseError>)
    ensures
        match (r, find_spec(s@, p@, anywhere, previous_parentheses@)) {
            (Ok((pos, st)), Ok((spos, sst))) => st@ == sst && match pos {
                Some(k) => spos == Some(k as int),
                None => spos is None,
            },
            (Err(e), Err(k)) => e.is_at(filename@, lineno, k),
            _ => false,
        },
        r matches Ok((Some(k), _)) ==> k < s@.len() && matches_at(s@, p@, k as int),
        r matches Err(e) ==> e.kind != ErrorKind::UnterminatedContinuation && e.kind
            != ErrorKind::IndentationExpected,
{
    proof {
        lemma_scan_error_kind(s@, p@, anywhere, 0, false, false, previous_parentheses@);
    }
    proof {
        lemma_scan_found(s@, p@, anywhere, 0, false, false, previous_parentheses@);
    }
    let mut parentheses = previous_parentheses;
    let mut single_string = false;
    let mut double_string = false;
    let len = s.len();
    let mut i: usize = 0;
    while i < len
        invariant
            len == s@.len(),
            i <= len,
            find_spec(s@, p@, anywhere, previous_parentheses@) == scan_from(
                s@,
                p@,
                anywhere,
                i as int,
                single_string,
                double_string,
                parentheses@,
            ),
        decreases len - i,
    {
        if !single_string && !double_string && (anywhere || parentheses.len() == 0) && matches_here(
            s,
            p,
            i,
        ) {
            return Ok((Some(i), parentheses));
        }
        let c = s[i];
        if c == '"' && !single_string {
            double_string = !double_string;
        } else if c == '\'' && !double_string {
            single_string = !single_string;
        } else if single_string || double_string {
        } else if c == '(' || c == '[' || c == '{' {
            parentheses.push(c);
        } else if c == ')' || c == ']' || c == '}' {
            let want = if c == ')' {
                '('
            } else if c == ']' {
                '['
            } else {
                '{'
            };
            match parentheses.pop() {
                None => {
                    return Err(ParseError::new(filename, lineno, ErrorKind::ExtraClosingBracket(c)));
                },
                Some(o) => {
                    if o != want {
                        return Err(ParseError::new(filename, lineno, ErrorKind::BracketMismatch));
                    }
                },
            }
        }
        i += 1;
    }
    Ok((None, parentheses))
}

} // verus!
