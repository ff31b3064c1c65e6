//! The function-signature grammar:
//! `name(params) [.(inherited params)] [-> type]:`.

use vstd::prelude::*;
use crate::error::{ErrorKind, ParseError};
use crate::model::{opt_view, FunctionArgStruct, FunctionArgument};
use crate::text::{is_whitespace, is_ws, push_char, push_opt, same_chars, string_of};

verus! {

/// Which part of a parameter or of the signature the next characters build.
#[derive(PartialEq, Eq, Structural, Clone, Copy)]
pub enum Side {
    Name,
    Type,
    Assignment,
    Invalid,
}

/// A parameter: name, type, default value.
pub type ArgView = (Seq<char>, Option<Seq<char>>, Option<Seq<char>>);

pub open spec fn arg_view(a: FunctionArgument) -> ArgView {
    (a.name@, opt_view(a.value_type), opt_view(a.default_value))
}

pub open spec fn args_view(v: Seq<FunctionArgument>) -> Seq<ArgView> {
    v.map_values(|a: FunctionArgument| arg_view(a))
}

pub open spec fn opt_args_view(o: Option<Vec<FunctionArgument>>) -> Option<Seq<ArgView>> {
    match o {
        Some(v) => Some(args_view(v@)),
        None => None,
    }
}

/// The state of the signature scan.
pub struct FnState {
    /// The closing `:` was seen.
    pub finished: bool,
    /// Parenthesis depth.
    pub depth: int,
    /// Parenthesis groups closed so far.
    pub groups: int,
    pub side: Side,
    pub last: Option<char>,
    pub name: Seq<char>,
    pub args: Seq<ArgView>,
    pub super_args: Option<Seq<ArgView>>,
    pub ret: Option<Seq<char>>,
    pub cur_name: Seq<char>,
    pub cur_type: Option<Seq<char>>,
    pub cur_value: Option<Seq<char>>,
}

pub open spec fn fn_init() -> FnState {
    FnState {
        finished: false,
        depth: 0,
        groups: 0,
        side: Side::Name,
        last: None,
        name: Seq::empty(),
        args: Seq::empty(),
        super_args: None,
        ret: None,
        cur_name: Seq::empty(),
        cur_type: None,
        cur_value: None,
    }
}

pub open spec fn init_name() -> Seq<char> {
    seq!['_', 'i', 'n', 'i', 't']
}

pub open spec fn or_empty(o: Option<Seq<char>>) -> Seq<char> {
    match o {
        Some(s) => s,
        None => Seq::empty(),
    }
}

/// The parameter being built is complete: it goes to the own list in the
/// first group and to the inherited-call list in the second, and the next
/// characters build the name of the next parameter.
pub open spec fn close_arg(st: FnState) -> Option<FnState> {
    let a = (st.cur_name, st.cur_type, st.cur_value);
    let reset = FnState {
        side: Side::Name,
        cur_name: Seq::empty(),
        cur_type: None,
        cur_value: None,
        ..st
    };
    if st.groups == 0 {
        Some(FnState { args: st.args.push(a), ..reset })
    } else if st.groups == 1 {
        Some(
            FnState {
                super_args: Some(
                    match st.super_args {
                        Some(v) => v,
                        None => Seq::empty(),
                    }.push(a),
                ),
                ..reset
            },
        )
    } else {
        None
    }
}

/// The effect of the character `c` before the last character is recorded;
/// `None` is a syntax error.
pub open spec fn fn_step_core(c: char, st: FnState) -> Option<FnState> {
    if is_ws(c) {
        Some(st)
    } else if st.finished {
        None
    } else if c == '(' {
        if st.groups < 2 {
            Some(FnState { depth: st.depth + 1, ..st })
        } else {
            None
        }
    } else if c == ')' && st.depth <= 0 {
        None
    } else if c == ')' {
        let d = FnState { depth: st.depth - 1, ..st };
        let closed = if d.depth == 0 && d.cur_name.len() > 0 {
            close_arg(d)
        } else {
            Some(d)
        };
        match closed {
            None => None,
            Some(e) => if e.depth == 0 {
                Some(FnState { side: Side::Invalid, groups: e.groups + 1, ..e })
            } else {
                Some(e)
            },
        }
    } else if c == '.' && st.depth == 0 && st.name == init_name() && st.groups == 1 {
        Some(FnState { side: Side::Name, ..st })
    } else if c == '.' && st.depth == 0 {
        None
    } else if c == ':' && st.depth == 0 {
        Some(FnState { finished: true, ..st })
    } else if c == ':' {
        Some(FnState { side: Side::Type, cur_type: Some(Seq::empty()), ..st })
    } else if c == ',' {
        close_arg(st)
    } else if c == '-' && st.depth == 0 {
        Some(st)
    } else if c == '>' {
        if st.last == Some('-') {
            Some(FnState { side: Side::Type, ..st })
        } else {
            None
        }
    } else if c == '=' && st.depth == 1 && st.side != Side::Assignment {
        Some(FnState { side: Side::Assignment, ..st })
    } else if st.depth == 0 && st.side == Side::Name {
        Some(FnState { name: st.name.push(c), ..st })
    } else if st.depth == 0 && st.side == Side::Type {
        Some(FnState { ret: Some(or_empty(st.ret).push(c)), ..st })
    } else if st.side == Side::Name {
        Some(FnState { cur_name: st.cur_name.push(c), ..st })
    } else if st.side == Side::Type {
        Some(
            FnState {
                cur_type: match st.cur_type {
                    Some(t) => Some(t.push(c)),
                    None => None,
                },
                ..st
            },
        )
    } else if st.side == Side::Assignment {
        Some(FnState { cur_value: Some(or_empty(st.cur_value).push(c)), ..st })
    } else {
        None
    }
}

pub open spec fn fn_step(c: char, st: FnState) -> Option<FnState> {
    match fn_step_core(c, st) {
        Some(s) => Some(FnState { last: Some(c), ..s }),
        None => None,
    }
}

/// The state after the characters of `s` from position `i`.
pub open spec fn fn_run(s: Seq<char>, i: int, st: FnState) -> Option<FnState>
    decreases s.len() - i,
{
    if i < 0 || i >= s.len() {
        Some(st)
    } else {
        match fn_step(s[i], st) {
            Some(t) => fn_run(s, i + 1, t),
            None => None,
        }
    }
}

/// What a signature parses to: name, parameters, inherited-call parameters,
/// return type; `None` is a syntax error.
pub open spec fn function_spec(s: Seq<char>) -> Option<
    (Seq<char>, Seq<ArgView>, Option<Seq<ArgView>>, Option<Seq<char>>),
> {
    match fn_run(s, 0, fn_init()) {
        Some(st) => Some((st.name, st.args, st.super_args, st.ret)),
        None => None,
    }
}

fn new_arg(name: String, value_type: Option<String>, default_value: Option<String>) -> (r:
    FunctionArgument)
    ensures
        arg_view(r) == (name@, opt_view(value_type), opt_view(default_value)),
{
    FunctionArgument { name, value_type, default_value }
}

/// Parses the text after `func`, such as `_init(a: int, b).(c) -> void:`.
pub fn parse_function(filename: &str, lineno: usize, line: &Vec<char>) -> (r: Result<
    (String, FunctionArgStruct),
    ParseError,
>)
    ensures
        match (r, function_spec(line@)) {
            (Ok((name, f)), Some((n, a, sa, rt))) => name@ == n && args_view(f.arguments@) == a
                && opt_args_view(f.super_arguments) == sa && opt_view(f.return_type) == rt,
            (Err(e), None) => e.is_at(filename@, lineno, ErrorKind::InvalidSyntax),
            _ => false,
        },
{
    let init = vec!['_', 'i', 'n', 'i', 't'];
    assert(init@ =~= init_name());
    let mut finished = false;
    let mut opens: usize = 0;
    let mut closes: usize = 0;
    let mut groups: usize = 0;
    let mut side = Side::Name;
    let mut last: Option<char> = None;
    let mut name: Vec<char> = Vec::new();
    let mut arguments: Vec<FunctionArgument> = Vec::new();
    let mut super_arguments: Option<Vec<FunctionArgument>> = None;
    let mut return_type: Option<String> = None;
    let mut cur_name = String::new();
    let mut cur_type: Option<String> = None;
    let mut cur_value: Option<String> = None;
    let n = line.len();
    let mut i: usize = 0;
    assert(args_view(arguments@) =~= Seq::<ArgView>::empty());
    while i < n
        invariant
            n == line@.len(),
            i <= n,
            opens <= i,
            closes <= opens,
            groups <= i,
            init@ == init_name(),
            fn_run(line@, 0, fn_init()) == fn_run(
                line@,
                i as int,
                FnState {
                    finished,
                    depth: opens - closes,
                    groups: groups as int,
                    side,
                    last,
                    name: name@,
                    args: args_view(arguments@),
                    super_args: opt_args_view(super_arguments),
                    ret: opt_view(return_type),
                    cur_name: cur_name@,
                    cur_type: opt_view(cur_type),
                    cur_value: opt_view(cur_value),
                },
            ),
        decreases n - i,
    {
        let c = line[i];
        let ghost before = FnState {
            finished,
            depth: opens - closes,
            groups: groups as int,
            side,
            last,
            name: name@,
            args: args_view(arguments@),
            super_args: opt_args_view(super_arguments),
            ret: opt_view(return_type),
            cur_name: cur_name@,
            cur_type: opt_view(cur_type),
            cur_value: opt_view(cur_value),
        };
        let mut close_now = false;
        if is_whitespace(c) {
        } else if finished {
            return Err(ParseError::new(filename, lineno, ErrorKind::InvalidSyntax));
        } else if c == '(' {
            if groups < 2 {
                opens += 1;
            } else {
                return Err(ParseError::new(filename, lineno, ErrorKind::InvalidSyntax));
            }
        } else if c == ')' && opens <= closes {
            return Err(ParseError::new(filename, lineno, ErrorKind::InvalidSyntax));
        } else if c == ')' {
            closes += 1;
            if opens == closes && cur_name.unicode_len() > 0 {
                close_now = true;
            }
        } else if c == '.' && opens == closes && same_chars(&name, &init) && groups == 1 {
            side = Side::Name;
        } else if c == '.' && opens == closes {
            return Err(ParseError::new(filename, lineno, ErrorKind::InvalidSyntax));
        } else if c == ':' && opens == closes {
            finished = true;
        } else if c == ':' {
            side = Side::Type;
            cur_type = Some(String::new());
        } else if c == ',' {
            close_now = true;
        } else if c == '-' && opens == closes {
        } else if c == '>' {
            if last == Some('-') {
                side = Side::Type;
            } else {
                return Err(ParseError::new(filename, lineno, ErrorKind::InvalidSyntax));
            }
        } else if c == '=' && opens == closes + 1 && side != Side::Assignment {
            side = Side::Assignment;
        } else if opens == closes && side == Side::Name {
            name.push(c);
        } else if opens == closes && side == Side::Type {
            return_type = push_opt(return_type, c);
        } else if side == Side::Name {
            push_char(&mut cur_name, c);
        } else if side == Side::Type {
            cur_type = match cur_type {
                Some(t) => {
                    let mut t = t;
                    push_char(&mut t, c);
                    Some(t)
                },
                None => None,
            };
        } else if side == Side::Assignment {
            cur_value = push_opt(cur_value, c);
        } else {
            return Err(ParseError::new(filename, lineno, ErrorKind::InvalidSyntax));
        }
        if close_now {
            let a = new_arg(cur_name, cur_type, cur_value);
            side = Side::Name;
            cur_name = String::new();
            cur_type = None;
            cur_value = None;
            if groups == 0 {
                arguments.push(a);
                assert(args_view(arguments@) =~= before.args.push(arg_view(a)));
            } else if groups == 1 {
                let mut v = match super_arguments {
                    Some(v) => v,
                    None => Vec::new(),
                };
                let ghost old_v = v@;
                v.push(a);
                assert(args_view(v@) =~= args_view(old_v).push(arg_view(a)));
                assert(old_v.len() == 0 ==> args_view(old_v) =~= Seq::<ArgView>::empty());
                super_arguments = Some(v);
            } else {
                return Err(ParseError::new(filename, lineno, ErrorKind::InvalidSyntax));
            }
        }
        if c == ')' && opens == closes {
            side = Side::Invalid;
            groups += 1;
        }
        last = Some(c);
        i += 1;
    }
    let return_type = return_type;
    Ok((string_of(&name, 0, name.len()), FunctionArgStruct { arguments, super_arguments, return_type }))
}

} // verus!
