//! Recognising a declaration line and adding its symbol to the frame.

use vstd::prelude::*;
use crate::assignment::{assignment_spec, parse_assignment, AssignmentParts};
use crate::enums::{
    enum_entries, enum_values_view, is_private, is_visible, parse_enum_values, visible, EnumAcc,
};
use crate::error::{ErrorKind, ParseError};
use crate::frame::ClassFrame;
use crate::function::{args_view, function_spec, opt_args_view, parse_function};
use crate::model::{
    opt_view, texts, EntryType, EnumValue, ExportArgStruct, Symbol, SymbolArgs,
    VariableArgStruct,
};
use crate::text::{
    find_char, has_prefix, slice_of, split, starts_with_at,
    trim, trim_bounds, trimmed,
};

verus! {

/// A class body that is being read.
pub struct ClassMode {
    pub name: String,
    /// Indentation of the `class` line.
    pub outer_indent: usize,
    /// Indentation of the body, once its first line fixed it.
    pub indent: Option<usize>,
    pub frame: ClassFrame,
    /// The doc comment of the class.
    pub text: Vec<String>,
    /// The class is left out of the tree, and its members with it.
    pub hidden: bool,
}

/// An enum body that spans several lines.
pub struct EnumMode {
    pub name: String,
    /// The next implicit value.
    pub counter: i128,
    pub values: Vec<EnumValue>,
}

/// A block that a declaration opens.
pub enum Opened {
    Class(ClassMode),
    Enum(EnumMode),
}

pub open spec fn class_kw() -> Seq<char> {
    seq!['c', 'l', 'a', 's', 's', ' ']
}

pub open spec fn signal_kw() -> Seq<char> {
    seq!['s', 'i', 'g', 'n', 'a', 'l', ' ']
}

pub open spec fn func_kw() -> Seq<char> {
    seq!['f', 'u', 'n', 'c', ' ']
}

pub open spec fn var_kw() -> Seq<char> {
    seq!['v', 'a', 'r', ' ']
}

pub open spec fn const_kw() -> Seq<char> {
    seq!['c', 'o', 'n', 's', 't', ' ']
}

pub open spec fn export_kw() -> Seq<char> {
    seq!['e', 'x', 'p', 'o', 'r', 't']
}

pub open spec fn enum_kw() -> Seq<char> {
    seq!['e', 'n', 'u', 'm']
}

/// The category of the declaration that line `l` starts with, if any.
pub open spec fn decl_type(l: Seq<char>) -> Option<EntryType> {
    if has_prefix(l, class_kw()) {
        Some(EntryType::CLASS)
    } else if has_prefix(l, signal_kw()) {
        Some(EntryType::SIGNAL)
    } else if has_prefix(l, func_kw()) {
        Some(EntryType::FUNC)
    } else if has_prefix(l, var_kw()) {
        Some(EntryType::VAR)
    } else if has_prefix(l, const_kw()) {
        Some(EntryType::CONST)
    } else if has_prefix(l, export_kw()) {
        Some(EntryType::EXPORT)
    } else if has_prefix(l, enum_kw()) {
        Some(EntryType::ENUM)
    } else {
        None
    }
}

/// `l` from position `k` on.
pub open spec fn after(l: Seq<char>, k: int) -> Seq<char> {
    l.subrange(k, l.len() as int)
}

/// `k` is the first position of `ch` in `l`.
pub open spec fn first_at(l: Seq<char>, ch: char, k: int) -> bool {
    0 <= k < l.len() && l[k] == ch && forall|j: int| 0 <= j < k ==> l[j] != ch
}

/// The first position of `ch` in `l`, if any.
pub open spec fn first_pos(l: Seq<char>, ch: char) -> Option<int> {
    if exists|k: int| first_at(l, ch, k) {
        Some(choose|k: int| first_at(l, ch, k))
    } else {
        None
    }
}

pub open spec fn var_marker() -> Seq<char> {
    seq![' ', 'v', 'a', 'r', ' ']
}

pub open spec fn marker_at(l: Seq<char>, k: int) -> bool {
    0 <= k && k + 5 <= l.len() && l.subrange(k, k + 5) == var_marker()
}

pub open spec fn first_marker(l: Seq<char>, k: int) -> bool {
    marker_at(l, k) && forall|j: int| 0 <= j < k ==> !marker_at(l, j)
}

/// The first position of ` var ` in `l`, if any.
pub open spec fn marker_pos(l: Seq<char>) -> Option<int> {
    if exists|k: int| first_marker(l, k) {
        Some(choose|k: int| first_marker(l, k))
    } else {
        None
    }
}

/// The export's own `(type, options...)` list, given the ` var ` marker at
/// `pos`: taken when its parentheses stand before the marker, absent when
/// they stand after it or there are none, and an error otherwise.
pub open spec fn export_own(l: Seq<char>, pos: int) -> Result<Option<(Seq<char>, Seq<Seq<char>>)>, ()> {
    match (first_pos(l, '('), first_pos(l, ')')) {
        (Some(o), Some(c)) => if o < c && c < pos {
            let ps = split(l.subrange(o + 1, c), ',').map_values(|p: Seq<char>| trim(p));
            Ok(Some((ps[0], ps.drop_first())))
        } else if o > pos && c > pos {
            Ok(None)
        } else {
            Err(())
        },
        (Some(o), None) => if o > pos {
            Ok(None)
        } else {
            Err(())
        },
        (None, Some(c)) => if c > pos {
            Ok(None)
        } else {
            Err(())
        },
        (None, None) => Ok(None),
    }
}

/// What an `export` line parses to: its own type list, if any, and the
/// parts of the declaration after ` var `.
pub open spec fn export_spec(l: Seq<char>) -> Option<(Option<(Seq<char>, Seq<Seq<char>>)>, AssignmentParts)> {
    match marker_pos(l) {
        None => None,
        Some(pos) => match export_own(l, pos) {
            Err(_) => None,
            Ok(own) => match assignment_spec(after(l, pos + 5)) {
                Ok(p) => Some((own, p)),
                Err(_) => None,
            },
        },
    }
}

/// The name on a `class` line: the text after `class` up to the first `:`,
/// trimmed.
pub open spec fn class_name(l: Seq<char>) -> Seq<char> {
    let from = if l.len() < 5 {
        l.len() as int
    } else {
        5
    };
    match first_pos(after(l, from), ':') {
        Some(k) => trim(l.subrange(from, from + k)),
        None => trim(after(l, from)),
    }
}

/// Where the body of an `enum` line starts (just after its first `{`) and
/// the enum's name, the text between `enum` and `{`.
pub open spec fn enum_head(l: Seq<char>) -> Option<(int, Seq<char>)> {
    match first_pos(l, '{') {
        Some(pos) => Some((pos + 1, trim(l.subrange(if pos < 5 { pos } else { 5 }, pos)))),
        None => None,
    }
}

/// Where the part of an enum body on this line ends: at its first `}`, or
/// at the end of the line.
pub open spec fn enum_body_end(l: Seq<char>, start: int) -> int {
    match first_pos(after(l, start), '}') {
        Some(k) => start + k,
        None => l.len() as int,
    }
}

/// The values of the body part of an `enum` line whose body starts at `start`.
pub open spec fn inline_enum(l: Seq<char>, start: int, show_private: bool, over: Option<bool>) -> Result<
    EnumAcc,
    ErrorKind,
> {
    enum_entries(
        split(l.subrange(start, enum_body_end(l, start)), ','),
        EnumAcc { values: Seq::empty(), counter: 0, pending: Seq::empty() },
        show_private,
        over,
    )
}

/// What reading an `enum` line did: without `{` it fails; a hidden enum
/// changes nothing; otherwise its values are read up to the first `}`, and
/// the enum symbol, with the pending doc comment, is added when the `}` is
/// there, or the body is left open.
pub open spec fn enum_decl_step(
    l: Seq<char>,
    ok: bool,
    f0: ClassFrame,
    f1: ClassFrame,
    cs: Seq<Seq<char>>,
    en: Option<EnumMode>,
    show_private: bool,
    over: Option<bool>,
) -> bool {
    match enum_head(l) {
        None => !ok,
        Some((start, name)) => if !visible(name, show_private, over) {
            ok && f1 == f0 && en is None
        } else {
            match inline_enum(l, start, show_private, over) {
                Err(_) => !ok,
                Ok(acc) => ok && if enum_body_end(l, start) < l.len() {
                    &&& en is None
                    &&& f1.list(EntryType::ENUM).len() == f0.list(EntryType::ENUM).len() + 1
                    &&& f1.list(EntryType::ENUM).last().name@ == name
                    &&& texts(f1.list(EntryType::ENUM).last().text@) == cs
                    &&& f1.list(EntryType::ENUM).last().args matches Some(SymbolArgs::EnumArgs(v))
                        && enum_values_view(v@) == acc.values
                } else {
                    &&& f1 == f0
                    &&& en matches Some(e) && e.name@ == name && e.counter == acc.counter
                        && enum_values_view(e.values@) == acc.values
                },
            }
        },
    }
}

/// The declaration on line `l` breaks its grammar: a `func`, `var`, `const`
/// or `export` line whose text does not parse, or a visible `enum` line
/// without `{` or whose values do not parse.
pub open spec fn decl_fails(l: Seq<char>, show_private: bool, over: Option<bool>) -> bool {
    match decl_type(l) {
        Some(t) => if t == EntryType::ENUM {
            match enum_head(l) {
                None => true,
                Some((start, name)) => visible(name, show_private, over) && inline_enum(
                    l,
                    start,
                    show_private,
                    over,
                ) is Err,
            }
        } else {
            (t == EntryType::FUNC || t == EntryType::VAR || t == EntryType::CONST || t
                == EntryType::EXPORT) && decl_name(l, t) is None
        },
        None => false,
    }
}

/// The name that a declaration line of category `t` gives, where the grammar
/// of its category accepts it.
pub open spec fn decl_name(l: Seq<char>, t: EntryType) -> Option<Seq<char>> {
    match t {
        EntryType::SIGNAL => Some(trim(after(l, 6))),
        EntryType::FUNC => match function_spec(after(l, 4)) {
            Some(f) => Some(f.0),
            None => None,
        },
        EntryType::VAR => match assignment_spec(after(l, 4)) {
            Ok(p) => Some(p.0),
            Err(_) => None,
        },
        EntryType::CONST => match assignment_spec(after(l, 6)) {
            Ok(p) => Some(p.0),
            Err(_) => None,
        },
        EntryType::EXPORT => match export_spec(l) {
            Some((_, p)) => Some(p.0),
            None => None,
        },
        _ => None,
    }
}

/// Type, initializer, setter and getter.
pub open spec fn var_view(x: VariableArgStruct) -> (
    Option<Seq<char>>,
    Option<Seq<char>>,
    Option<Seq<char>>,
    Option<Seq<char>>,
) {
    (opt_view(x.value_type), opt_view(x.assignment), opt_view(x.setter), opt_view(x.getter))
}

/// What the symbol that a `func`, `var` or `const` line adds carries.
pub open spec fn args_match(l: Seq<char>, t: EntryType, a: Option<SymbolArgs>) -> bool {
    match t {
        EntryType::SIGNAL => a is None,
        EntryType::FUNC => match (function_spec(after(l, 4)), a) {
            (Some(f), Some(SymbolArgs::FunctionArgs(x))) => args_view(x.arguments@) == f.1
                && opt_args_view(x.super_arguments) == f.2 && opt_view(x.return_type) == f.3,
            _ => false,
        },
        EntryType::VAR => match (assignment_spec(after(l, 4)), a) {
            (Ok(p), Some(SymbolArgs::VariableArgs(x))) => var_view(x) == (p.1, p.2, p.3, p.4),
            _ => false,
        },
        EntryType::CONST => match (assignment_spec(after(l, 6)), a) {
            (Ok(p), Some(SymbolArgs::VariableArgs(x))) => var_view(x) == (p.1, p.2, p.3, p.4),
            _ => false,
        },
        EntryType::EXPORT => match (export_spec(l), a) {
            (Some((own, p)), Some(SymbolArgs::ExportArgs(x))) => {
                &&& opt_view(x.value_type) == match own {
                    Some((t, _)) => Some(t),
                    None => p.1,
                }
                &&& texts(x.options@) == match own {
                    Some((_, o)) => o,
                    None => Seq::empty(),
                }
                &&& opt_view(x.assignment) == p.2 && opt_view(x.setter) == p.3 && opt_view(x.getter)
                    == p.4
            },
            _ => false,
        },
        _ => true,
    }
}

/// The list `now` is `before`, or `before` with one visible symbol added that
/// took the pending doc comment.
pub open spec fn added_at_most_one(
    before: Seq<Symbol>,
    now: Seq<Symbol>,
    comments_before: Seq<String>,
    comments_now: Seq<String>,
    show_private: bool,
    over: Option<bool>,
) -> bool {
    ||| now == before && comments_now == comments_before
    ||| now.len() == before.len() + 1 && now.drop_last() == before && visible(
        now.last().name@,
        show_private,
        over,
    ) && now.last().text@ == comments_before && comments_now.len() == 0
}

/// A declaration whose name starts with `_` enters a frame only when private
/// symbols are shown or a `[Show]` directive stands right before it; a class
/// block opened for such a name is hidden otherwise.
pub proof fn lemma_private_symbol_needs_permission(
    before: Seq<Symbol>,
    now: Seq<Symbol>,
    comments_before: Seq<String>,
    comments_now: Seq<String>,
    show_private: bool,
    over: Option<bool>,
)
    requires
        added_at_most_one(before, now, comments_before, comments_now, show_private, over),
        now != before,
        is_private(now.last().name@),
    ensures
        show_private || over == Some(true),
{
}

/// Takes the pending doc comment, leaving none.
pub fn drain(comments: &mut Vec<String>) -> (r: Vec<String>)
    ensures
        r@ == old(comments)@,
        final(comments)@.len() == 0,
{
    let mut r: Vec<String> = Vec::new();
    std::mem::swap(comments, &mut r);
    r
}

/// The export's own `(type, options...)` list, given the ` var ` marker at `pos`.
fn export_type(line: &Vec<char>, pos: usize) -> (r: Result<Option<(String, Vec<String>)>, ()>)
    requires
        pos <= line@.len(),
    ensures
        match (r, export_own(line@, pos as int)) {
            (Ok(Some((t, o))), Ok(Some((st, so)))) => t@ == st && texts(o@) == so,
            (Ok(None), Ok(None)) => true,
            (Err(_), Err(_)) => true,
            _ => false,
        },
{
    let open = first_char(line, '(');
    let close = first_char(line, ')');
    match (open, close) {
        (Some(o), Some(c)) => {
            if o < c && c < pos {
                let mut parts = split_trimmed(line, o + 1, c);
                let ghost all = parts@;
                let t = parts.remove(0);
                assert(texts(parts@) =~= texts(all).drop_first());
                Ok(Some((t, parts)))
            } else if o > pos && c > pos {
                Ok(None)
            } else {
                Err(())
            }
        },
        (Some(o), None) => if o > pos {
            Ok(None)
        } else {
            Err(())
        },
        (None, Some(c)) => if c > pos {
            Ok(None)
        } else {
            Err(())
        },
        (None, None) => Ok(None),
    }
}

/// The pieces of `v[lo..hi]` between commas, each trimmed.
pub fn split_trimmed(v: &Vec<char>, lo: usize, hi: usize) -> (r: Vec<String>)
    requires
        lo <= hi <= v@.len(),
    ensures
        texts(r@) == split(v@.subrange(lo as int, hi as int), ',').map_values(
            |p: Seq<char>| trim(p),
        ),
        r@.len() >= 1,
{
    let mut r: Vec<String> = Vec::new();
    let mut start = lo;
    let mut i = lo;
    while i < hi
        invariant
            lo <= start <= i <= hi <= v@.len(),
            split(v@.subrange(lo as int, i as int), ',').last() == v@.subrange(
                start as int,
                i as int,
            ),
            texts(r@) == split(v@.subrange(lo as int, i as int), ',').drop_last().map_values(
                |p: Seq<char>| trim(p),
            ),
        decreases hi - i,
    {
        let ghost prev = split(v@.subrange(lo as int, i as int), ',');
        assert(v@.subrange(lo as int, i + 1).drop_last() =~= v@.subrange(lo as int, i as int));
        proof {
            crate::text::lemma_split_nonempty(v@.subrange(lo as int, i as int), ',');
        }
        if v[i] == ',' {
            let ghost old_r = r@;
            r.push(trimmed(v, start, i));
            let ghost cur = split(v@.subrange(lo as int, i + 1), ',');
            assert(cur.drop_last() =~= prev);
            assert(texts(r@) =~= texts(old_r).push(trim(prev.last())));
            assert(prev.map_values(|p: Seq<char>| trim(p)) =~= prev.drop_last().map_values(
                |p: Seq<char>| trim(p),
            ).push(trim(prev.last())));
            start = i + 1;
            assert(v@.subrange(start as int, i + 1) =~= Seq::<char>::empty());
        } else {
            let ghost cur = split(v@.subrange(lo as int, i + 1), ',');
            assert(cur.drop_last() =~= prev.drop_last());
            assert(v@.subrange(start as int, i + 1) =~= v@.subrange(start as int, i as int).push(
                v@[i as int],
            ));
        }
        i += 1;
    }
    let ghost all = split(v@.subrange(lo as int, hi as int), ',');
    proof {
        crate::text::lemma_split_nonempty(v@.subrange(lo as int, hi as int), ',');
    }
    let ghost old_r = r@;
    r.push(trimmed(v, start, hi));
    assert(texts(r@) =~= texts(old_r).push(trim(all.last())));
    assert(all.map_values(|p: Seq<char>| trim(p)) =~= all.drop_last().map_values(
        |p: Seq<char>| trim(p),
    ).push(trim(all.last())));
    r
}

/// Only the list of category `t` may differ between `a` and `b`.
pub open spec fn others_same(a: ClassFrame, b: ClassFrame, t: EntryType) -> bool {
    forall|u: EntryType| u != t ==> (#[trigger] b.list(u)) == a.list(u)
}

/// A declaration of category `t` on `line` named `name` was added exactly
/// when it is visible.
pub open spec fn named_outcome(
    before: Seq<Symbol>,
    now: Seq<Symbol>,
    line: Seq<char>,
    t: EntryType,
    name: Seq<char>,
    show_private: bool,
    over: Option<bool>,
) -> bool {
    if visible(name, show_private, over) {
        now.len() == before.len() + 1 && now.last().name@ == name && args_match(line, t, now.last().args)
    } else {
        now == before
    }
}

/// What reading a declaration of category `t` did to the frame and the doc
/// comment.
pub open spec fn decl_outcome(
    r: Result<(), ParseError>,
    filename: Seq<char>,
    lineno: usize,
    line: Seq<char>,
    t: EntryType,
    f0: ClassFrame,
    f1: ClassFrame,
    c0: Seq<String>,
    c1: Seq<String>,
    show_private: bool,
    over: Option<bool>,
) -> bool {
    &&& others_same(f0, f1, t)
    &&& r is Ok ==> added_at_most_one(f0.list(t), f1.list(t), c0, c1, show_private, over)
    &&& match decl_name(line, t) {
        Some(name) => r is Ok && named_outcome(
            f0.list(t),
            f1.list(t),
            line,
            t,
            name,
            show_private,
            over,
        ),
        None => (t == EntryType::FUNC || t == EntryType::VAR || t == EntryType::CONST || t
            == EntryType::EXPORT) ==> (r is Err),
    }
    &&& r matches Err(e) ==> e.file@ == filename && e.line == lineno
    &&& r is Err ==> f1 == f0 && c1 == c0
}

/// The first character of `v[a..b]`, if any, as a vector.
fn head(v: &Vec<char>, a: usize, b: usize) -> (r: Vec<char>)
    requires
        a <= b <= v@.len(),
    ensures
        r@.len() > 0 <==> a < b,
        r@.len() > 0 ==> r@[0] == v@[a as int],
        r@.len() <= 1,
{
    slice_of(v, a, if a < b { a + 1 } else { a })
}

fn add_signal(
    line: &Vec<char>,
    frame: &mut ClassFrame,
    comment_buffer: &mut Vec<String>,
    show_private: bool,
    over: Option<bool>,
)
    requires
        has_prefix(line@, signal_kw()),
    ensures
        decl_outcome(
            Ok(()),
            Seq::empty(),
            0,
            line@,
            EntryType::SIGNAL,
            *old(frame),
            *final(frame),
            old(comment_buffer)@,
            final(comment_buffer)@,
            show_private,
            over,
        ),
{
    let n = line.len();
    let name = trimmed(line, 6, n);
    let (a, b) = trim_bounds(line, 6, n);
    let first = head(line, a, b);
    assert(first@.len() > 0 ==> first@[0] == name@[0]);
    assert(name@.len() > 0 ==> first@.len() > 0);
    if is_visible(&first, show_private, over) {
        let text = drain(comment_buffer);
        frame.push(EntryType::SIGNAL, Symbol { name, args: None, text });
    }
}

fn add_function(
    filename: &str,
    lineno: usize,
    line: &Vec<char>,
    frame: &mut ClassFrame,
    comment_buffer: &mut Vec<String>,
    show_private: bool,
    over: Option<bool>,
) -> (r: Result<(), ParseError>)
    requires
        has_prefix(line@, func_kw()),
    ensures
        decl_outcome(
            r,
            filename@,
            lineno,
            line@,
            EntryType::FUNC,
            *old(frame),
            *final(frame),
            old(comment_buffer)@,
            final(comment_buffer)@,
            show_private,
            over,
        ),
{
    let n = line.len();
    let body = slice_of(line, 4, n);
    let (name, f) = parse_function(filename, lineno, &body)?;
    let name_chars = crate::text::chars_of(name.as_str());
    if is_visible(&name_chars, show_private, over) {
        let text = drain(comment_buffer);
        frame.push(EntryType::FUNC, Symbol { name, args: Some(SymbolArgs::FunctionArgs(f)), text });
    }
    Ok(())
}

fn add_variable(
    filename: &str,
    lineno: usize,
    line: &Vec<char>,
    t: EntryType,
    frame: &mut ClassFrame,
    comment_buffer: &mut Vec<String>,
    show_private: bool,
    over: Option<bool>,
) -> (r: Result<(), ParseError>)
    requires
        t == EntryType::VAR ==> has_prefix(line@, var_kw()),
        t == EntryType::CONST ==> has_prefix(line@, const_kw()),
        t == EntryType::VAR || t == EntryType::CONST,
    ensures
        decl_outcome(
            r,
            filename@,
            lineno,
            line@,
            t,
            *old(frame),
            *final(frame),
            old(comment_buffer)@,
            final(comment_buffer)@,
            show_private,
            over,
        ),
{
    let n = line.len();
    let skip: usize = if t == EntryType::VAR {
        4
    } else {
        6
    };
    let body = slice_of(line, skip, n);
    let (name, v) = parse_assignment(filename, lineno, &body)?;
    let name_chars = crate::text::chars_of(name.as_str());
    if is_visible(&name_chars, show_private, over) {
        let text = drain(comment_buffer);
        frame.push(t, Symbol { name, args: Some(SymbolArgs::VariableArgs(v)), text });
    }
    Ok(())
}

fn add_export(
    filename: &str,
    lineno: usize,
    line: &Vec<char>,
    frame: &mut ClassFrame,
    comment_buffer: &mut Vec<String>,
    show_private: bool,
    over: Option<bool>,
) -> (r: Result<(), ParseError>)
    ensures
        decl_outcome(
            r,
            filename@,
            lineno,
            line@,
            EntryType::EXPORT,
            *old(frame),
            *final(frame),
            old(comment_buffer)@,
            final(comment_buffer)@,
            show_private,
            over,
        ),
{
    let n = line.len();
    let pos = match find_var_marker(line) {
        Some(p) => p,
        None => {
            return Err(ParseError::new(filename, lineno, ErrorKind::InvalidSyntax));
        },
    };
    let own = match export_type(line, pos) {
        Ok(o) => o,
        Err(()) => {
            return Err(ParseError::new(filename, lineno, ErrorKind::InvalidSyntax));
        },
    };
    let body = slice_of(line, pos + 5, n);
    let (name, v) = parse_assignment(filename, lineno, &body)?;
    let name_chars = crate::text::chars_of(name.as_str());
    if !is_visible(&name_chars, show_private, over) {
        return Ok(());
    }
    let VariableArgStruct { value_type, assignment, setter, getter } = v;
    let (value_type, options) = match own {
        Some((t, o)) => (Some(t), o),
        None => {
            let o: Vec<String> = Vec::new();
            assert(texts(o@) =~= Seq::<Seq<char>>::empty());
            (value_type, o)
        },
    };
    let text = drain(comment_buffer);
    frame.push(
        EntryType::EXPORT,
        Symbol {
            name,
            args: Some(
                SymbolArgs::ExportArgs(
                    ExportArgStruct { value_type, assignment, options, setter, getter },
                ),
            ),
            text,
        },
    );
    Ok(())
}

fn add_enum(
    filename: &str,
    lineno: usize,
    line: &Vec<char>,
    frame: &mut ClassFrame,
    comment_buffer: &mut Vec<String>,
    show_private: bool,
    over: Option<bool>,
) -> (r: Result<Option<EnumMode>, ParseError>)
    ensures
        decl_outcome(
            match r {
                Ok(_) => Ok(()),
                Err(e) => Err(e),
            },
            filename@,
            lineno,
            line@,
            EntryType::ENUM,
            *old(frame),
            *final(frame),
            old(comment_buffer)@,
            final(comment_buffer)@,
            show_private,
            over,
        ),
        enum_decl_step(
            line@,
            r is Ok,
            *old(frame),
            *final(frame),
            texts(old(comment_buffer)@),
            match r {
                Ok(Some(e)) => Some(e),
                _ => None,
            },
            show_private,
            over,
        ),
        r matches Ok(Some(e)) ==> isize::MIN <= e.counter <= isize::MAX + 1,
{
    let n = line.len();
    let pos = match first_char(line, '{') {
        Some(p) => p,
        None => {
            return Err(ParseError::new(filename, lineno, ErrorKind::InvalidSyntax));
        },
    };
    let from = if pos < 5 {
        pos
    } else {
        5
    };
    let name = trimmed(line, from, pos);
    let (a, b) = trim_bounds(line, from, pos);
    let first = head(line, a, b);
    assert(first@.len() > 0 ==> first@[0] == name@[0]);
    assert(name@.len() > 0 ==> first@.len() > 0);
    if !is_visible(&first, show_private, over) {
        return Ok(None);
    }
    let end = first_char_from(line, pos + 1, '}');
    let hi = match end {
        Some(e) => e,
        None => n,
    };
    let mut values: Vec<EnumValue> = Vec::new();
    let mut no_comments: Vec<String> = Vec::new();
    assert(enum_values_view(values@) =~= Seq::<crate::enums::EnumValueView>::empty());
    assert(texts(no_comments@) =~= Seq::<Seq<char>>::empty());
    let counter = parse_enum_values(
        filename,
        lineno,
        line,
        pos + 1,
        hi,
        0,
        show_private,
        over,
        &mut no_comments,
        &mut values,
    )?;
    match end {
        Some(_) => {
            let text = drain(comment_buffer);
            frame.push(EntryType::ENUM, Symbol { name, args: Some(SymbolArgs::EnumArgs(values)), text });
            Ok(None)
        },
        None => Ok(Some(EnumMode { name, counter, values })),
    }
}

/// Opens the block of a `class` line.
fn open_class(
    line: &Vec<char>,
    indent: usize,
    comment_buffer: &mut Vec<String>,
    show_private: bool,
    over: Option<bool>,
) -> (c: ClassMode)
    ensures
        c.name@ == class_name(line@),
        c.text@ == old(comment_buffer)@,
        final(comment_buffer)@.len() == 0,
        c.outer_indent == indent,
        c.indent is None,
        c.hidden == !visible(c.name@, show_private, over),
        forall|t: EntryType| (#[trigger] c.frame.list(t)).len() == 0,
{
    let n = line.len();
    let from: usize = if n < 5 {
        n
    } else {
        5
    };
    let end = match first_char_from(line, from, ':') {
        Some(k) => k,
        None => n,
    };
    assert(end < n ==> line@.subrange(from as int, end as int) == line@.subrange(
        from as int,
        from + (end - from),
    ));
    let name = trimmed(line, from, end);
    let (a, b) = trim_bounds(line, from, end);
    let first = head(line, a, b);
    assert(first@.len() > 0 ==> first@[0] == name@[0]);
    assert(name@.len() > 0 ==> first@.len() > 0);
    let hidden = !is_visible(&first, show_private, over);
    let text = drain(comment_buffer);
    ClassMode { name, outer_indent: indent, indent: None, frame: ClassFrame::new(), text, hidden }
}

/// Reads one declaration line `line` of a block at indentation `indent`:
/// a `signal`, `func`, `var`, `const` or `export` line, or an `enum` that
/// closes on the line, adds its symbol to `frame` when it is visible; a
/// `class` line, or an `enum` whose body goes on, opens a block. The doc
/// comment goes to the symbol or block that takes it. Other lines change
/// nothing.
pub fn parse_class_content(
    filename: &str,
    lineno: usize,
    line: &Vec<char>,
    indent: usize,
    frame: &mut ClassFrame,
    comment_buffer: &mut Vec<String>,
    show_private: bool,
    override_visibility: Option<bool>,
) -> (r: Result<Option<Opened>, ParseError>)
    ensures
        decl_type(line@) is None ==> (r matches Ok(None)) && *final(frame) == *old(frame)
            && final(comment_buffer)@ == old(comment_buffer)@,
        match decl_type(line@) {
            Some(t) => t != EntryType::CLASS ==> decl_outcome(
                match r {
                    Ok(_) => Ok(()),
                    Err(e) => Err(e),
                },
                filename@,
                lineno,
                line@,
                t,
                *old(frame),
                *final(frame),
                old(comment_buffer)@,
                final(comment_buffer)@,
                show_private,
                override_visibility,
            ),
            None => true,
        },
        decl_type(line@) == Some(EntryType::CLASS) ==> *final(frame) == *old(frame) && (r matches Ok(
            Some(Opened::Class(_)),
        )),
        r matches Ok(Some(Opened::Class(c))) ==> c.name@ == class_name(line@) && c.text@ == old(
            comment_buffer,
        )@
            && final(comment_buffer)@.len() == 0 && c.outer_indent == indent && c.indent is None
            && c.hidden == !visible(c.name@, show_private, override_visibility) && forall|
            t: EntryType,
        | (#[trigger] c.frame.list(t)).len() == 0,
        r matches Ok(Some(Opened::Enum(e))) ==> isize::MIN <= e.counter <= isize::MAX + 1,
        r matches Ok(Some(Opened::Enum(_))) ==> decl_type(line@) == Some(EntryType::ENUM),
        r matches Ok(Some(Opened::Class(_))) ==> decl_type(line@) == Some(EntryType::CLASS),
        decl_type(line@) == Some(EntryType::ENUM) ==> enum_decl_step(
            line@,
            r is Ok,
            *old(frame),
            *final(frame),
            texts(old(comment_buffer)@),
            match r {
                Ok(Some(Opened::Enum(e))) => Some(e),
                _ => None,
            },
            show_private,
            override_visibility,
        ),
        r is Err <==> decl_fails(line@, show_private, override_visibility),
        r is Err ==> *final(frame) == *old(frame) && final(comment_buffer)@ == old(comment_buffer)@,
{
    let n = line.len();
    assert(line@.subrange(0, n as int) =~= line@);
    let over = override_visibility;
    if starts_with_at(line, 0, &vec!['c', 'l', 'a', 's', 's', ' ']) {
        return Ok(Some(Opened::Class(open_class(line, indent, comment_buffer, show_private, over))));
    }
    if starts_with_at(line, 0, &vec!['s', 'i', 'g', 'n', 'a', 'l', ' ']) {
        add_signal(line, frame, comment_buffer, show_private, over);
        return Ok(None);
    }
    if starts_with_at(line, 0, &vec!['f', 'u', 'n', 'c', ' ']) {
        add_function(filename, lineno, line, frame, comment_buffer, show_private, over)?;
        return Ok(None);
    }
    if starts_with_at(line, 0, &vec!['v', 'a', 'r', ' ']) {
        add_variable(filename, lineno, line, EntryType::VAR, frame, comment_buffer, show_private, over)?;
        return Ok(None);
    }
    if starts_with_at(line, 0, &vec!['c', 'o', 'n', 's', 't', ' ']) {
        add_variable(filename, lineno, line, EntryType::CONST, frame, comment_buffer, show_private, over)?;
        return Ok(None);
    }
    if starts_with_at(line, 0, &vec!['e', 'x', 'p', 'o', 'r', 't']) {
        add_export(filename, lineno, line, frame, comment_buffer, show_private, over)?;
        return Ok(None);
    }
    if starts_with_at(line, 0, &vec!['e', 'n', 'u', 'm']) {
        return match add_enum(filename, lineno, line, frame, comment_buffer, show_private, over)? {
            Some(e) => Ok(Some(Opened::Enum(e))),
            None => Ok(None),
        };
    }
    Ok(None)
}

/// The first position of ` var ` in `line`.
fn find_var_marker(line: &Vec<char>) -> (r: Option<usize>)
    ensures
        r matches Some(p) ==> p + 5 <= line@.len() && marker_pos(line@) == Some(p as int),
        r is None ==> marker_pos(line@) is None,
{
    let marker = vec![' ', 'v', 'a', 'r', ' '];
    assert(marker@ =~= var_marker());
    let n = line.len();
    let mut i: usize = 0;
    while i < n
        invariant
            n == line@.len(),
            marker@ == var_marker(),
            forall|j: int| 0 <= j < i ==> !marker_at(line@, j),
        decreases n - i,
    {
        assert(i + 5 <= n ==> line@.subrange(i as int, n as int).subrange(0, 5) =~= line@.subrange(
            i as int,
            i + 5,
        ));
        if starts_with_at(line, i, &marker) {
            assert(first_marker(line@, i as int));
            assert forall|k: int| first_marker(line@, k) implies k == i by {}
            return Some(i);
        }
        i += 1;
    }
    assert forall|k: int| !first_marker(line@, k) by {}
    None
}

/// The first position of `ch` in `line[from..]`, as a position of the spec.
fn first_char_from(line: &Vec<char>, from: usize, ch: char) -> (r: Option<usize>)
    requires
        from <= line@.len(),
    ensures
        r matches Some(k) ==> from <= k < line@.len() && first_pos(after(line@, from as int), ch)
            == Some(k - from),
        r is None ==> first_pos(after(line@, from as int), ch) is None,
{
    let ghost t = after(line@, from as int);
    let r = find_char(line, from, line.len(), ch);
    match r {
        Some(k) => {
            assert(first_at(t, ch, k - from));
            assert forall|j: int| first_at(t, ch, j) implies j == k - from by {}
        },
        None => {
            assert forall|j: int| !first_at(t, ch, j) by {}
        },
    }
    r
}

/// The first position of `ch` in `line`, as a position of the spec.
fn first_char(line: &Vec<char>, ch: char) -> (r: Option<usize>)
    ensures
        r matches Some(k) ==> first_pos(line@, ch) == Some(k as int) && k < line@.len(),
        r is None ==> first_pos(line@, ch) is None,
{
    let r = find_char(line, 0, line.len(), ch);
    match r {
        Some(k) => {
            assert(first_at(line@, ch, k as int));
            assert forall|j: int| first_at(line@, ch, j) implies j == k by {}
        },
        None => {
            assert forall|j: int| !first_at(line@, ch, j) by {}
        },
    }
    r
}

} // verus!
