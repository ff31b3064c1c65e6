//! The `name[: type][= value][ setget setter[, getter]]` declaration grammar.

use vstd::prelude::*;
use crate::error::{ErrorKind, ParseError};
use crate::model::{opt_view, VariableArgStruct};
use crate::scanner::{find, find_spec, Matcher};
use crate::text::{
    find_char, lemma_split_first, lemma_split_none, lemma_split_nonempty, split, trim, trimmed,
};

verus! {

/// The marker that introduces a setter/getter clause.
pub open spec fn setget_marker() -> Seq<char> {
    seq![' ', 's', 'e', 't', 'g', 'e', 't', ' ']
}

/// The setter and getter named by the clause text `t`, or `None` when the
/// clause has no valid shape.
pub open spec fn setget_spec(t: Seq<char>) -> Option<(Option<Seq<char>>, Option<Seq<char>>)> {
    let p = split(t, ',');
    if p.len() == 1 {
        if trim(p[0]).len() > 0 {
            Some((Some(trim(p[0])), None))
        } else {
            None
        }
    } else if p.len() == 2 {
        if trim(p[0]).len() == 0 {
            Some((None, Some(trim(p[1]))))
        } else if trim(p[1]).len() == 0 {
            Some((Some(trim(p[0])), None))
        } else {
            Some((Some(trim(p[0])), Some(trim(p[1]))))
        }
    } else {
        None
    }
}

/// The parts of a declaration: name, type, initializer, setter, getter.
pub type AssignmentParts = (
    Seq<char>,
    Option<Seq<char>>,
    Option<Seq<char>>,
    Option<Seq<char>>,
    Option<Seq<char>>,
);

/// The parts of `l`, given where `=` (`a`), `:` (`t`) and the setget marker
/// (`g`) were found: type, initializer and setget clause must come in that order.
pub open spec fn assignment_parts(l: Seq<char>, a: Option<int>, t: Option<int>, g: Option<int>) -> Result<
    AssignmentParts,
    ErrorKind,
> {
    let n = l.len() as int;
    let end = match g {
        Some(g) => g,
        None => n,
    };
    let sg = match g {
        Some(g) => setget_spec(l.subrange(g + 8, n)),
        None => Some((None, None)),
    };
    let shape: Option<(int, Option<Seq<char>>, Option<Seq<char>>)> = match (a, t) {
        (Some(a), Some(t)) => if t < a && a < end {
            Some((t, Some(trim(l.subrange(t + 1, a))), Some(trim(l.subrange(a + 1, end)))))
        } else {
            None
        },
        (Some(a), None) => if a < end {
            Some((a, None, Some(trim(l.subrange(a + 1, end)))))
        } else {
            None
        },
        (None, Some(t)) => if t < end {
            Some((t, Some(trim(l.subrange(t + 1, end))), None))
        } else {
            None
        },
        (None, None) => Some((end, None, None)),
    };
    match (shape, sg) {
        (Some((ne, ty, asg)), Some((st, gt))) => Ok((trim(l.subrange(0, ne)), ty, asg, st, gt)),
        _ => Err(ErrorKind::InvalidSyntax),
    }
}

/// What a declaration body `l` parses to: `=`, `:` and the setget marker
/// are looked for outside quotes and brackets.
pub open spec fn assignment_spec(l: Seq<char>) -> Result<AssignmentParts, ErrorKind> {
    match (
        find_spec(l, seq!['='], false, Seq::empty()),
        find_spec(l, seq![':'], false, Seq::empty()),
        find_spec(l, setget_marker(), false, Seq::empty()),
    ) {
        (Err(k), _, _) => Err(k),
        (_, Err(k), _) => Err(k),
        (_, _, Err(k)) => Err(k),
        (Ok((a, _)), Ok((t, _)), Ok((g, _))) => assignment_parts(l, a, t, g),
    }
}

/// The declaration's parts as they are stored.
pub open spec fn parts_of(name: String, v: VariableArgStruct) -> AssignmentParts {
    (name@, opt_view(v.value_type), opt_view(v.assignment), opt_view(v.setter), opt_view(v.getter))
}

/// A position as an integer.
pub open spec fn pos_of(o: Option<usize>) -> Option<int> {
    match o {
        Some(k) => Some(k as int),
        None => None,
    }
}

/// Parses the setter/getter clause `line[from..]`.
fn parse_setget(line: &Vec<char>, from: usize) -> (r: Option<(Option<String>, Option<String>)>)
    requires
        from <= line@.len(),
    ensures
        match (r, setget_spec(line@.subrange(from as int, line@.len() as int))) {
            (Some((s, g)), Some((ss, sg))) => opt_view(s) == ss && opt_view(g) == sg,
            (None, None) => true,
            _ => false,
        },
{
    let n = line.len();
    let ghost t = line@.subrange(from as int, n as int);
    match find_char(line, from, n, ',') {
        None => {
            proof {
                lemma_split_none(t, ',');
            }
            let s = trimmed(line, from, n);
            if s.unicode_len() == 0 {
                None
            } else {
                Some((Some(s), None))
            }
        },
        Some(c1) => {
            let ghost rest = line@.subrange(c1 + 1, n as int);
            proof {
                lemma_split_first(t, ',', c1 - from);
                assert(t.subrange(0, c1 - from) =~= line@.subrange(from as int, c1 as int));
                assert(t.subrange(c1 - from + 1, t.len() as int) =~= rest);
            }
            match find_char(line, c1 + 1, n, ',') {
                Some(c2) => {
                    proof {
                        lemma_split_first(rest, ',', c2 - c1 - 1);
                        lemma_split_nonempty(
                            rest.subrange(c2 - c1, rest.len() as int),
                            ',',
                        );
                    }
                    None
                },
                None => {
                    proof {
                        lemma_split_none(rest, ',');
                    }
                    let s = trimmed(line, from, c1);
                    let g = trimmed(line, c1 + 1, n);
                    if s.unicode_len() == 0 {
                        Some((None, Some(g)))
                    } else if g.unicode_len() == 0 {
                        Some((Some(s), None))
                    } else {
                        Some((Some(s), Some(g)))
                    }
                },
            }
        },
    }
}

/// Parses a declaration body such as `speed: float = 1.0 setget set_speed`
/// into its name and its type, initializer, setter and getter.
pub fn parse_assignment(filename: &str, lineno: usize, line: &Vec<char>) -> (r: Result<
    (String, VariableArgStruct),
    ParseError,
>)
    ensures
        match (r, assignment_spec(line@)) {
            (Ok((name, v)), Ok(p)) => parts_of(name, v) == p,
            (Err(e), Err(k)) => e.is_at(filename@, lineno, k),
            _ => false,
        },
{
    let (apos, _) = find(filename, lineno, line, &Matcher::Char('='), false, Vec::new())?;
    let (tpos, _) = find(filename, lineno, line, &Matcher::Char(':'), false, Vec::new())?;
    let marker = Matcher::Text(vec![' ', 's', 'e', 't', 'g', 'e', 't', ' ']);
    assert(marker@ =~= setget_marker());
    let (gpos, _) = find(filename, lineno, line, &marker, false, Vec::new())?;
    let ghost a = pos_of(apos);
    let ghost t = pos_of(tpos);
    let ghost g = pos_of(gpos);
    assert(assignment_spec(line@) == assignment_parts(line@, a, t, g));
    let n = line.len();
    let end = match gpos {
        Some(g) => g,
        None => n,
    };
    let (setter, getter) = match gpos {
        Some(g) => match parse_setget(line, g + 8) {
            Some(sg) => sg,
            None => {
                return Err(ParseError::new(filename, lineno, ErrorKind::InvalidSyntax));
            },
        },
        None => (None, None),
    };
    let (name_end, value_type, assignment) = match (apos, tpos) {
        (Some(a), Some(t)) => {
            if t < a && a < end {
                (t, Some(trimmed(line, t + 1, a)), Some(trimmed(line, a + 1, end)))
            } else {
                return Err(ParseError::new(filename, lineno, ErrorKind::InvalidSyntax));
            }
        },
        (Some(a), None) => {
            if a < end {
                (a, None, Some(trimmed(line, a + 1, end)))
            } else {
                return Err(ParseError::new(filename, lineno, ErrorKind::InvalidSyntax));
            }
        },
        (None, Some(t)) => {
            if t < end {
                (t, Some(trimmed(line, t + 1, end)), None)
            } else {
                return Err(ParseError::new(filename, lineno, ErrorKind::InvalidSyntax));
            }
        },
        (None, None) => (end, None, None),
    };
    let name = trimmed(line, 0, name_end);
    Ok((name, VariableArgStruct { value_type, assignment, setter, getter }))
}

} // verus!
