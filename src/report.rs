//! The markdown report of a documentation tree: one heading per category,
//! one bullet per symbol with its signature and doc comment, nested classes
//! indented under their class.

use vstd::prelude::*;
use crate::markdown::{
    append, append_str, argument_text, comment_block, escape, escaped, format_comments, join,
    joined, title, MarkdownBackend,
};
use crate::model::{
    opt_view, texts, DocumentationData, DocumentationEntry, EnumValue, ExportArgStruct,
    FunctionArgStruct, FunctionArgument, Symbol, SymbolArgs, VariableArgStruct,
};
use crate::text::push_char;

verus! {

pub open spec fn esc(s: Seq<char>) -> Seq<char> {
    escaped(s, false)
}

/// `before + esc(t)` when `o` holds `t`, else nothing.
pub open spec fn opt_esc(o: Option<String>, before: Seq<char>) -> Seq<char> {
    match opt_view(o) {
        Some(t) => before + esc(t),
        None => Seq::empty(),
    }
}

/// The parameters, written out, escaped and separated by `, `.
pub open spec fn params(v: Seq<FunctionArgument>) -> Seq<char> {
    joined(v.map_values(|a: FunctionArgument| escaped(argument_text(a), false)), seq![',', ' '])
}

/// The decimal digits of `n`.
pub open spec fn digits(n: nat) -> Seq<char>
    decreases n,
{
    if n < 10 {
        seq![(n + 48) as char]
    } else {
        digits(n / 10).push(((n % 10) + 48) as char)
    }
}

/// `n` in decimal, with a minus sign when negative.
pub open spec fn decimal(n: int) -> Seq<char> {
    if n < 0 {
        seq!['-'] + digits((-n) as nat)
    } else {
        digits(n as nat)
    }
}

pub open spec fn accessors(p: Seq<char>, getter: Option<String>, setter: Option<String>) -> Seq<char> {
    opt_esc(getter, seq![' ', ' ', '\n'] + p + seq!['*', '*', 'G', 'e', 't', 't', 'e', 'r', '*', '*', ':', ' '])
        + opt_esc(setter, seq![' ', ' ', '\n'] + p + seq!['*', '*', 'S', 'e', 't', 't', 'e', 'r', '*', '*', ':', ' '])
}

pub open spec fn initializer(a: Option<String>) -> Seq<char> {
    match opt_view(a) {
        Some(t) => seq![' ', '=', ' ', '`'] + escaped(t, true) + seq!['`'],
        None => Seq::empty(),
    }
}

pub open spec fn function_text(p: Seq<char>, name: Seq<char>, f: FunctionArgStruct) -> Seq<char> {
    seq!['('] + params(f.arguments@) + seq![')'] + opt_esc(f.return_type, seq![' ', '-', '>', ' '])
        + match f.super_arguments {
        Some(v) => seq![' ', ' ', '\n'] + p + seq!['*', '*', 'C', 'a', 'l', 'l', 's', '*', '*', ':', ' ', 's', 'u', 'p', 'e', 'r', '.']
            + name + seq!['('] + params(v@) + seq![')'],
        None => Seq::empty(),
    }
}

pub open spec fn variable_text(p: Seq<char>, v: VariableArgStruct) -> Seq<char> {
    opt_esc(v.value_type, seq![':', ' ']) + initializer(v.assignment) + accessors(p, v.getter, v.setter)
}

pub open spec fn export_text(p: Seq<char>, x: ExportArgStruct) -> Seq<char> {
    (match opt_view(x.value_type) {
        Some(t) => if x.options@.len() == 0 {
            seq![':', ' '] + esc(t)
        } else {
            seq![':', ' ', '('] + esc(t) + seq![',', ' '] + esc(joined(texts(x.options@), seq![',', ' ']))
                + seq![')']
        },
        None => Seq::empty(),
    }) + initializer(x.assignment) + accessors(p, x.getter, x.setter)
}

/// An enum value; at the top level its comment block, when it has one,
/// follows a line break, and in a class its comment block always follows.
pub open spec fn value_text(p: Seq<char>, v: EnumValue, top: bool) -> Seq<char> {
    seq![' ', ' ', '\n'] + p + seq![' ', ' ', ' ', ' ', '*', ' '] + esc(v.name@) + seq![' ', '=', ' ']
        + decimal(v.value as int) + if top {
        if v.text@.len() > 0 {
            seq![' ', ' ', '\n', ' ', ' ', ' ', ' '] + comment_block(Seq::empty(), texts(v.text@))
        } else {
            Seq::empty()
        }
    } else {
        comment_block(p, texts(v.text@))
    }
}

pub open spec fn values_text(p: Seq<char>, vs: Seq<EnumValue>, top: bool) -> Seq<char>
    decreases vs.len(),
{
    if vs.len() == 0 {
        Seq::empty()
    } else {
        values_text(p, vs.drop_last(), top) + value_text(p, vs.last(), top)
    }
}

/// What follows a symbol's name: its signature, type and value, accessors,
/// or enum values; nothing for a class, whose members follow its comment.
pub open spec fn args_text(p: Seq<char>, name: Seq<char>, a: Option<SymbolArgs>, top: bool) -> Seq<char> {
    match a {
        Some(SymbolArgs::FunctionArgs(f)) => function_text(p, name, f),
        Some(SymbolArgs::VariableArgs(v)) => variable_text(p, v),
        Some(SymbolArgs::ExportArgs(x)) => export_text(p, x),
        Some(SymbolArgs::EnumArgs(vs)) => seq![' ', ' ', '\n'] + p + seq![
            ' ',
            ' ',
            ' ',
            ' ',
            '*',
            '*',
            'V',
            'a',
            'l',
            'u',
            'e',
            's',
            '*',
            '*',
            ':',
        ] + values_text(p, vs@, top),
        _ => Seq::empty(),
    }
}

/// The prefix of the entries of a class nested under an entry with prefix `p`.
pub open spec fn class_indent(p: Seq<char>) -> Seq<char> {
    p + seq![' ', ' ', ' ', ' ', ' ', ' ', ' ', ' ']
}

/// A symbol of an entry with prefix `p` inside a class.
pub open spec fn symbol_text(p: Seq<char>, s: Symbol) -> Seq<char>
    decreases s,
{
    p + seq![' ', ' ', ' ', ' ', '*', ' '] + esc(s.name@) + args_text(p, esc(s.name@), s.args, false)
        + comment_block(p, texts(s.text@)) + match s.args {
        Some(SymbolArgs::ClassArgs(es)) => entries_text(class_indent(p), es@),
        _ => Seq::empty(),
    }
}

pub open spec fn symbols_text(p: Seq<char>, ss: Seq<Symbol>) -> Seq<char>
    decreases ss,
{
    if ss.len() == 0 {
        Seq::empty()
    } else {
        symbols_text(p, ss.drop_last()) + symbol_text(p, ss.last())
    }
}

/// The entries of a class, each a bold category bullet over its symbols.
pub open spec fn entries_text(p: Seq<char>, es: Seq<DocumentationEntry>) -> Seq<char>
    decreases es,
{
    if es.len() == 0 {
        Seq::empty()
    } else {
        entries_text(p, es.drop_last()) + p + seq!['*', ' ', '*', '*'] + title(es.last().entry_type)
            + seq!['*', '*', ':', ' ', ' ', '\n'] + symbols_text(p, es.last().symbols@)
    }
}

/// A top-level symbol: a line break before its comment block, and a class's
/// entries indented under it.
pub open spec fn top_symbol_text(s: Symbol) -> Seq<char> {
    seq!['*', ' '] + esc(s.name@) + args_text(Seq::empty(), esc(s.name@), s.args, true) + match s.args {
        Some(SymbolArgs::ClassArgs(es)) => seq![' ', ' ', '\n'] + comment_block(
            Seq::empty(),
            texts(s.text@),
        ) + seq![' ', ' ', '\n'] + entries_text(seq![' ', ' ', ' ', ' '], es@),
        _ => seq![' ', ' ', '\n'] + comment_block(Seq::empty(), texts(s.text@)),
    }
}

pub open spec fn top_symbols_text(ss: Seq<Symbol>) -> Seq<char>
    decreases ss.len(),
{
    if ss.len() == 0 {
        Seq::empty()
    } else {
        top_symbols_text(ss.drop_last()) + top_symbol_text(ss.last())
    }
}

/// The top-level entries, each a heading over its symbols.
pub open spec fn sections_text(es: Seq<DocumentationEntry>) -> Seq<char>
    decreases es.len(),
{
    if es.len() == 0 {
        Seq::empty()
    } else {
        sections_text(es.drop_last()) + seq!['#', '#', '#', ' '] + title(es.last().entry_type) + seq![
            ':',
            ' ',
            ' ',
            '\n',
        ] + top_symbols_text(es.last().symbols@) + seq![' ', ' ', '\n']
    }
}

/// The whole report of a file.
pub open spec fn report_text(d: DocumentationData) -> Seq<char> {
    seq!['#', '#', ' '] + esc(d.source_file@) + seq!['\n', '\n'] + sections_text(d.entries@)
}

fn write_esc(out: &mut String, s: &String)
    ensures
        final(out)@ == old(out)@ + esc(s@),
{
    let e = escape(s, false);
    append_str(out, e.as_str());
}

fn write_opt_esc(out: &mut String, o: &Option<String>, before: &Vec<char>)
    ensures
        final(out)@ == old(out)@ + opt_esc(*o, before@),
{
    match o {
        Some(t) => {
            append(out, before);
            write_esc(out, t);
            assert(final(out)@ =~= old(out)@ + (before@ + esc(t@)));
        },
        None => {
            assert(old(out)@ + Seq::<char>::empty() =~= old(out)@);
        },
    }
}

fn write_digits(out: &mut String, m: u128)
    ensures
        final(out)@ == old(out)@ + digits(m as nat),
    decreases m,
{
    if m >= 10 {
        write_digits(out, m / 10);
    }
    let d = (m % 10) as u32;
    let c = if d == 0 { '0' } else if d == 1 { '1' } else if d == 2 { '2' } else if d == 3 { '3' }
        else if d == 4 { '4' } else if d == 5 { '5' } else if d == 6 { '6' } else if d == 7 { '7' }
        else if d == 8 { '8' } else { '9' };
    assert(c == ((m % 10) + 48) as char);
    push_char(out, c);
    if m >= 10 {
        assert(final(out)@ =~= old(out)@ + digits(m as nat));
    } else {
        assert(final(out)@ =~= old(out)@ + digits(m as nat));
    }
}

fn write_decimal(out: &mut String, v: isize)
    ensures
        final(out)@ == old(out)@ + decimal(v as int),
{
    if v < 0 {
        push_char(out, '-');
        let m = (-(v as i128)) as u128;
        write_digits(out, m);
        assert(final(out)@ =~= old(out)@ + (seq!['-'] + digits((-(v as int)) as nat)));
    } else {
        write_digits(out, v as u128);
    }
}

fn write_accessors(out: &mut String, p: &String, getter: &Option<String>, setter: &Option<String>)
    ensures
        final(out)@ == old(out)@ + accessors(p@, *getter, *setter),
{
    let pv = crate::text::chars_of(p.as_str());
    let mut g = vec![' ', ' ', '\n'];
    g.append(&mut pv.clone());
    let mut gt = vec!['*', '*', 'G', 'e', 't', 't', 'e', 'r', '*', '*', ':', ' '];
    g.append(&mut gt);
    let mut st = vec![' ', ' ', '\n'];
    st.append(&mut pv.clone());
    let mut stt = vec!['*', '*', 'S', 'e', 't', 't', 'e', 'r', '*', '*', ':', ' '];
    st.append(&mut stt);
    write_opt_esc(out, getter, &g);
    write_opt_esc(out, setter, &st);
    assert(final(out)@ =~= old(out)@ + accessors(p@, *getter, *setter));
}

fn write_initializer(out: &mut String, a: &Option<String>)
    ensures
        final(out)@ == old(out)@ + initializer(*a),
{
    match a {
        Some(t) => {
            append(out, &vec![' ', '=', ' ', '`']);
            let q = escape(t, true);
            append_str(out, q.as_str());
            append(out, &vec!['`']);
            assert(final(out)@ =~= old(out)@ + initializer(*a));
        },
        None => {
            assert(old(out)@ + Seq::<char>::empty() =~= old(out)@);
        },
    }
}

fn write_params(out: &mut String, v: &Vec<FunctionArgument>)
    ensures
        final(out)@ == old(out)@ + params(v@),
{
    let j = join(v, ", ");
    proof {
        reveal_strlit(", ");
    }
    assert((", ")@ =~= seq![',', ' ']);
    append_str(out, j.as_str());
}

fn write_function(out: &mut String, p: &String, name: &String, f: &FunctionArgStruct)
    ensures
        final(out)@ == old(out)@ + function_text(p@, name@, *f),
{
    append(out, &vec!['(']);
    write_params(out, &f.arguments);
    append(out, &vec![')']);
    write_opt_esc(out, &f.return_type, &vec![' ', '-', '>', ' ']);
    match &f.super_arguments {
        Some(v) => {
            append(out, &vec![' ', ' ', '\n']);
            append_str(out, p.as_str());
            append(
                out,
                &vec!['*', '*', 'C', 'a', 'l', 'l', 's', '*', '*', ':', ' ', 's', 'u', 'p', 'e', 'r', '.'],
            );
            append_str(out, name.as_str());
            append(out, &vec!['(']);
            write_params(out, v);
            append(out, &vec![')']);
        },
        None => {},
    }
    assert(final(out)@ =~= old(out)@ + function_text(p@, name@, *f));
}

fn write_variable(out: &mut String, p: &String, v: &VariableArgStruct)
    ensures
        final(out)@ == old(out)@ + variable_text(p@, *v),
{
    write_opt_esc(out, &v.value_type, &vec![':', ' ']);
    write_initializer(out, &v.assignment);
    write_accessors(out, p, &v.getter, &v.setter);
    assert(final(out)@ =~= old(out)@ + variable_text(p@, *v));
}

/// The texts joined by `, `.
fn join_texts(v: &Vec<String>) -> (r: String)
    ensures
        r@ == joined(texts(v@), seq![',', ' ']),
{
    let ghost ts = texts(v@);
    let mut r = String::new();
    let mut i: usize = 0;
    while i < v.len()
        invariant
            i <= v@.len(),
            ts == texts(v@),
            r@ == joined(ts.subrange(0, i as int), seq![',', ' ']),
        decreases v@.len() - i,
    {
        assert(ts.subrange(0, i + 1).drop_last() =~= ts.subrange(0, i as int));
        if i > 0 {
            append(&mut r, &vec![',', ' ']);
        }
        append_str(&mut r, v[i].as_str());
        i += 1;
    }
    assert(ts.subrange(0, i as int) =~= ts);
    r
}

fn write_export(out: &mut String, p: &String, x: &ExportArgStruct)
    ensures
        final(out)@ == old(out)@ + export_text(p@, *x),
{
    match &x.value_type {
        Some(t) => {
            if x.options.len() == 0 {
                append(out, &vec![':', ' ']);
                write_esc(out, t);
            } else {
                append(out, &vec![':', ' ', '(']);
                write_esc(out, t);
                append(out, &vec![',', ' ']);
                let o = join_texts(&x.options);
                write_esc(out, &o);
                append(out, &vec![')']);
            }
        },
        None => {},
    }
    write_initializer(out, &x.assignment);
    write_accessors(out, p, &x.getter, &x.setter);
    assert(final(out)@ =~= old(out)@ + export_text(p@, *x));
}

fn write_values(out: &mut String, p: &String, vs: &Vec<EnumValue>, top: bool)
    ensures
        final(out)@ == old(out)@ + values_text(p@, vs@, top),
{
    let ghost start = out@;
    let empty = String::new();
    let mut i: usize = 0;
    while i < vs.len()
        invariant
            i <= vs@.len(),
            empty@ == Seq::<char>::empty(),
            out@ == start + values_text(p@, vs@.subrange(0, i as int), top),
        decreases vs@.len() - i,
    {
        assert(vs@.subrange(0, i + 1).drop_last() =~= vs@.subrange(0, i as int));
        let ghost before = out@;
        let v = &vs[i];
        append(out, &vec![' ', ' ', '\n']);
        append_str(out, p.as_str());
        append(out, &vec![' ', ' ', ' ', ' ', '*', ' ']);
        write_esc(out, &v.name);
        append(out, &vec![' ', '=', ' ']);
        write_decimal(out, v.value);
        if !top || v.text.len() > 0 {
            let mut text: Vec<String> = Vec::new();
            let mut k: usize = 0;
            while k < v.text.len()
                invariant
                    k <= v.text@.len(),
                    text@.len() == k,
                    forall|j: int| 0 <= j < k ==> (#[trigger] text@[j])@ == v.text@[j]@,
                decreases v.text@.len() - k,
            {
                let c = v.text[k].clone();
                text.push(c);
                k += 1;
            }
            assert(texts(text@) =~= texts(v.text@));
            if top {
                append(out, &vec![' ', ' ', '\n', ' ', ' ', ' ', ' ']);
                let block = format_comments(&empty, text);
                append_str(out, block.as_str());
            } else {
                let block = format_comments(p, text);
                append_str(out, block.as_str());
            }
        }
        assert(out@ =~= before + value_text(p@, vs@[i as int], top));
        i += 1;
    }
    assert(vs@.subrange(0, i as int) =~= vs@);
}

fn write_args(out: &mut String, p: &String, name: &String, a: &Option<SymbolArgs>, top: bool)
    ensures
        final(out)@ == old(out)@ + args_text(p@, name@, *a, top),
{
    match a {
        Some(SymbolArgs::FunctionArgs(f)) => write_function(out, p, name, f),
        Some(SymbolArgs::VariableArgs(v)) => write_variable(out, p, v),
        Some(SymbolArgs::ExportArgs(x)) => write_export(out, p, x),
        Some(SymbolArgs::EnumArgs(vs)) => {
            append(out, &vec![' ', ' ', '\n']);
            append_str(out, p.as_str());
            append(
                out,
                &vec![' ', ' ', ' ', ' ', '*', '*', 'V', 'a', 'l', 'u', 'e', 's', '*', '*', ':'],
            );
            write_values(out, p, vs, top);
            assert(final(out)@ =~= old(out)@ + args_text(p@, name@, *a, top));
        },
        _ => {
            assert(old(out)@ + Seq::<char>::empty() =~= old(out)@);
        },
    }
}

/// A copy of the texts of `v`.
fn copy_texts(v: &Vec<String>) -> (r: Vec<String>)
    ensures
        texts(r@) == texts(v@),
{
    let mut r: Vec<String> = Vec::new();
    let mut k: usize = 0;
    while k < v.len()
        invariant
            k <= v@.len(),
            r@.len() == k,
            forall|j: int| 0 <= j < k ==> (#[trigger] r@[j])@ == v@[j]@,
        decreases v@.len() - k,
    {
        r.push(v[k].clone());
        k += 1;
    }
    assert(texts(r@) =~= texts(v@));
    r
}

fn class_indented(p: &String) -> (r: String)
    ensures
        r@ == class_indent(p@),
{
    let mut r = p.clone();
    append(&mut r, &vec![' ', ' ', ' ', ' ', ' ', ' ', ' ', ' ']);
    r
}

fn write_symbol(out: &mut String, p: &String, s: &Symbol)
    ensures
        final(out)@ == old(out)@ + symbol_text(p@, *s),
    decreases *s,
{
    append_str(out, p.as_str());
    append(out, &vec![' ', ' ', ' ', ' ', '*', ' ']);
    let name = escape(&s.name, false);
    append_str(out, name.as_str());
    write_args(out, p, &name, &s.args, false);
    let block = format_comments(p, copy_texts(&s.text));
    append_str(out, block.as_str());
    match &s.args {
        Some(SymbolArgs::ClassArgs(es)) => {
            let q = class_indented(p);
            write_entries(out, &q, es);
        },
        _ => {},
    }
    assert(final(out)@ =~= old(out)@ + symbol_text(p@, *s));
}

fn write_symbols(out: &mut String, p: &String, ss: &Vec<Symbol>)
    ensures
        final(out)@ == old(out)@ + symbols_text(p@, ss@),
    decreases ss@,
{
    let ghost start = out@;
    let mut i: usize = 0;
    while i < ss.len()
        invariant
            i <= ss@.len(),
            out@ == start + symbols_text(p@, ss@.subrange(0, i as int)),
        decreases ss@.len() - i,
    {
        assert(ss@.subrange(0, i + 1).drop_last() =~= ss@.subrange(0, i as int));
        write_symbol(out, p, &ss[i]);
        i += 1;
    }
    assert(ss@.subrange(0, i as int) =~= ss@);
}

fn write_entries(out: &mut String, p: &String, es: &Vec<DocumentationEntry>)
    ensures
        final(out)@ == old(out)@ + entries_text(p@, es@),
    decreases es@,
{
    let ghost start = out@;
    let mut i: usize = 0;
    while i < es.len()
        invariant
            i <= es@.len(),
            out@ == start + entries_text(p@, es@.subrange(0, i as int)),
        decreases es@.len() - i,
    {
        assert(es@.subrange(0, i + 1).drop_last() =~= es@.subrange(0, i as int));
        let ghost before = out@;
        append_str(out, p.as_str());
        append(out, &vec!['*', ' ', '*', '*']);
        let t = es[i].entry_type.title();
        append_str(out, t.as_str());
        append(out, &vec!['*', '*', ':', ' ', ' ', '\n']);
        write_symbols(out, p, &es[i].symbols);
        assert(out@ =~= start + entries_text(p@, es@.subrange(0, i + 1)));
        i += 1;
    }
    assert(es@.subrange(0, i as int) =~= es@);
}

fn write_top_symbol(out: &mut String, s: &Symbol)
    ensures
        final(out)@ == old(out)@ + top_symbol_text(*s),
{
    let empty = String::new();
    append(out, &vec!['*', ' ']);
    let name = escape(&s.name, false);
    append_str(out, name.as_str());
    write_args(out, &empty, &name, &s.args, true);
    append(out, &vec![' ', ' ', '\n']);
    let block = format_comments(&empty, copy_texts(&s.text));
    append_str(out, block.as_str());
    match &s.args {
        Some(SymbolArgs::ClassArgs(es)) => {
            append(out, &vec![' ', ' ', '\n']);
            let mut q = String::new();
            append(&mut q, &vec![' ', ' ', ' ', ' ']);
            write_entries(out, &q, es);
        },
        _ => {},
    }
    assert(final(out)@ =~= old(out)@ + top_symbol_text(*s));
}

fn write_top_symbols(out: &mut String, ss: &Vec<Symbol>)
    ensures
        final(out)@ == old(out)@ + top_symbols_text(ss@),
{
    let ghost start = out@;
    let mut i: usize = 0;
    while i < ss.len()
        invariant
            i <= ss@.len(),
            out@ == start + top_symbols_text(ss@.subrange(0, i as int)),
        decreases ss@.len() - i,
    {
        assert(ss@.subrange(0, i + 1).drop_last() =~= ss@.subrange(0, i as int));
        write_top_symbol(out, &ss[i]);
        i += 1;
    }
    assert(ss@.subrange(0, i as int) =~= ss@);
}

impl MarkdownBackend {
    /// The markdown report of one parsed file: the file name as a heading,
    /// then each category under a heading of its own.
    pub fn generate_output(&self, data: &DocumentationData) -> (r: String)
        ensures
            r@ == report_text(*data),
    {
        let mut out = String::new();
        append(&mut out, &vec!['#', '#', ' ']);
        write_esc(&mut out, &data.source_file);
        append(&mut out, &vec!['\n', '\n']);
        let ghost start = out@;
        let es = &data.entries;
        let mut i: usize = 0;
        while i < es.len()
            invariant
                i <= es@.len(),
                es == &data.entries,
                out@ == start + sections_text(es@.subrange(0, i as int)),
            decreases es@.len() - i,
        {
            assert(es@.subrange(0, i + 1).drop_last() =~= es@.subrange(0, i as int));
            append(&mut out, &vec!['#', '#', '#', ' ']);
            let t = es[i].entry_type.title();
            append_str(&mut out, t.as_str());
            append(&mut out, &vec![':', ' ', ' ', '\n']);
            write_top_symbols(&mut out, &es[i].symbols);
            append(&mut out, &vec![' ', ' ', '\n']);
            assert(out@ =~= start + sections_text(es@.subrange(0, i + 1)));
            i += 1;
        }
        assert(es@.subrange(0, i as int) =~= es@);
        assert(out@ =~= report_text(*data));
        out
    }
}

} // verus!
