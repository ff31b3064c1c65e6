//! Markdown escaping and the small pieces of text that a markdown report is
//! built from.

use vstd::prelude::*;
use crate::model::{opt_view, EntryType, FunctionArgument};
use crate::text::push_char;

verus! {

/// The markdown report writer.
pub struct MarkdownBackend {}

impl MarkdownBackend {
    pub fn new() -> (r: MarkdownBackend) {
        MarkdownBackend {}
    }

    /// The extension of the files it writes.
    pub fn get_extension(&self) -> (r: String)
        ensures
            r@ == seq!['m', 'd'],
    {
        let mut r = String::new();
        push_char(&mut r, 'm');
        push_char(&mut r, 'd');
        r
    }
}

/// Characters that markdown gives a meaning to.
pub open spec fn is_markdown_special(c: char) -> bool {
    c == '\\' || c == '_' || c == '#' || c == '*' || c == '`' || c == '(' || c == ')' || c == '['
        || c == ']'
}

/// Characters that matter inside an inline code span.
pub open spec fn is_quoted_special(c: char) -> bool {
    c == '*' || c == '`'
}

/// `s` with a backslash before each character that `quoted_only` selects
/// (the code-span characters) or, without it, before each markdown character.
pub open spec fn escaped(s: Seq<char>, quoted_only: bool) -> Seq<char>
    decreases s.len(),
{
    if s.len() == 0 {
        Seq::empty()
    } else {
        let c = s.last();
        let special = if quoted_only {
            is_quoted_special(c)
        } else {
            is_markdown_special(c)
        };
        if special {
            escaped(s.drop_last(), quoted_only) + seq!['\\', c]
        } else {
            escaped(s.drop_last(), quoted_only).push(c)
        }
    }
}

pub(crate) fn escape(s: &String, quoted_only: bool) -> (r: String)
    ensures
        r@ == escaped(s@, quoted_only),
{
    let v = crate::text::chars_of(s.as_str());
    let mut r = String::new();
    let mut i: usize = 0;
    while i < v.len()
        invariant
            v@ == s@,
            i <= v@.len(),
            r@ == escaped(v@.subrange(0, i as int), quoted_only),
        decreases v@.len() - i,
    {
        let c = v[i];
        assert(v@.subrange(0, i + 1).drop_last() =~= v@.subrange(0, i as int));
        let special = if quoted_only {
            c == '*' || c == '`'
        } else {
            c == '\\' || c == '_' || c == '#' || c == '*' || c == '`' || c == '(' || c == ')'
                || c == '[' || c == ']'
        };
        if special {
            push_char(&mut r, '\\');
            assert(r@.push(c) =~= escaped(v@.subrange(0, i as int), quoted_only) + seq!['\\', c]);
        }
        push_char(&mut r, c);
        i += 1;
    }
    assert(v@.subrange(0, i as int) =~= s@);
    r
}

/// Escapes every markdown character of `s` with a backslash.
pub fn sanitize_markdown(s: String) -> (r: String)
    ensures
        r@ == escaped(s@, false),
{
    escape(&s, false)
}

/// Escapes the characters that would end or format an inline code span.
pub fn sanitize_markdown_quoted(s: String) -> (r: String)
    ensures
        r@ == escaped(s@, true),
{
    escape(&s, true)
}

/// Appends the characters of `t` to `r`.
pub(crate) fn append(r: &mut String, v: &Vec<char>)
    ensures
        final(r)@ == old(r)@ + v@,
{
    let mut i: usize = 0;
    let ghost start = r@;
    while i < v.len()
        invariant
            i <= v@.len(),
            r@ == start + v@.subrange(0, i as int),
        decreases v@.len() - i,
    {
        push_char(r, v[i]);
        i += 1;
        assert(r@ =~= start + v@.subrange(0, i as int));
    }
    assert(v@.subrange(0, i as int) =~= v@);
}

/// Appends `s` to `r`.
pub(crate) fn append_str(r: &mut String, s: &str)
    ensures
        final(r)@ == old(r)@ + s@,
{
    let v = crate::text::chars_of(s);
    append(r, &v);
}

/// A parameter as it is written: `name`, then `: type`, then `= default`.
pub open spec fn argument_text(a: FunctionArgument) -> Seq<char> {
    a.name@ + match opt_view(a.value_type) {
        Some(t) => seq![':', ' '] + t,
        None => Seq::empty(),
    } + match opt_view(a.default_value) {
        Some(d) => seq![' ', '=', ' '] + d,
        None => Seq::empty(),
    }
}

impl FunctionArgument {
    /// The parameter as it is written in a signature.
    pub fn text(&self) -> (r: String)
        ensures
            r@ == argument_text(*self),
    {
        let mut r = String::new();
        append_str(&mut r, self.name.as_str());
        match &self.value_type {
            Some(t) => {
                append_str(&mut r, ": ");
                append_str(&mut r, t.as_str());
            },
            None => {},
        }
        match &self.default_value {
            Some(d) => {
                append_str(&mut r, " = ");
                append_str(&mut r, d.as_str());
            },
            None => {},
        }
        proof {
            reveal_strlit(": ");
            reveal_strlit(" = ");
        }
        assert(r@ =~= argument_text(*self));
        r
    }
}

/// The heading of a category.
pub open spec fn title(t: EntryType) -> Seq<char> {
    match t {
        EntryType::CLASS => seq!['C', 'l', 'a', 's', 's', 'e', 's'],
        EntryType::SIGNAL => seq!['S', 'i', 'g', 'n', 'a', 'l', 's'],
        EntryType::FUNC => seq!['F', 'u', 'n', 'c', 't', 'i', 'o', 'n', 's'],
        EntryType::VAR => seq!['V', 'a', 'r', 'i', 'a', 'b', 'l', 'e', 's'],
        EntryType::CONST => seq!['C', 'o', 'n', 's', 't', 'a', 'n', 't', 's'],
        EntryType::EXPORT => seq!['E', 'x', 'p', 'o', 'r', 't', 's'],
        EntryType::ENUM => seq!['E', 'n', 'u', 'm', 's'],
    }
}

impl EntryType {
    /// The heading of the category.
    pub fn title(&self) -> (r: String)
        ensures
            r@ == title(*self),
    {
        let mut r = String::new();
        match self {
            EntryType::CLASS => append_str(&mut r, "Classes"),
            EntryType::SIGNAL => append_str(&mut r, "Signals"),
            EntryType::FUNC => append_str(&mut r, "Functions"),
            EntryType::VAR => append_str(&mut r, "Variables"),
            EntryType::CONST => append_str(&mut r, "Constants"),
            EntryType::EXPORT => append_str(&mut r, "Exports"),
            EntryType::ENUM => append_str(&mut r, "Enums"),
        }
        proof {
            reveal_strlit("Classes");
            reveal_strlit("Signals");
            reveal_strlit("Functions");
            reveal_strlit("Variables");
            reveal_strlit("Constants");
            reveal_strlit("Exports");
            reveal_strlit("Enums");
        }
        assert(r@ =~= title(*self));
        r
    }
}

/// A parameter as it is written, with its markdown characters escaped.
pub fn sanitize_markdown_format(a: &FunctionArgument) -> (r: String)
    ensures
        r@ == escaped(argument_text(*a), false),
{
    sanitize_markdown(a.text())
}

/// The texts `ts` with `sep` between each two.
pub open spec fn joined(ts: Seq<Seq<char>>, sep: Seq<char>) -> Seq<char>
    decreases ts.len(),
{
    if ts.len() == 0 {
        Seq::empty()
    } else if ts.len() == 1 {
        ts[0]
    } else {
        joined(ts.drop_last(), sep) + sep + ts.last()
    }
}

/// The parameters `v`, each written out and escaped, separated by `s`.
pub fn join(v: &Vec<FunctionArgument>, s: &str) -> (r: String)
    ensures
        r@ == joined(v@.map_values(|a: FunctionArgument| escaped(argument_text(a), false)), s@),
{
    let ghost ts = v@.map_values(|a: FunctionArgument| escaped(argument_text(a), false));
    let mut r = String::new();
    let mut i: usize = 0;
    while i < v.len()
        invariant
            i <= v@.len(),
            ts == v@.map_values(|a: FunctionArgument| escaped(argument_text(a), false)),
            r@ == joined(ts.subrange(0, i as int), s@),
        decreases v@.len() - i,
    {
        assert(ts.subrange(0, i + 1).drop_last() =~= ts.subrange(0, i as int));
        if i > 0 {
            append_str(&mut r, s);
        }
        let t = sanitize_markdown_format(&v[i]);
        append_str(&mut r, t.as_str());
        i += 1;
    }
    assert(ts.subrange(0, i as int) =~= ts);
    r
}

/// The doc comment block under an item: a markdown line break alone when
/// there is no comment, else the comment lines in a fenced block indented by
/// `prefix` and four spaces.
pub open spec fn comment_block(prefix: Seq<char>, text: Seq<Seq<char>>) -> Seq<char> {
    let pad = prefix + seq![' ', ' ', ' ', ' '];
    let fence = pad + seq!['`', '`', '`'];
    if text.len() == 0 {
        seq![' ', ' ', '\n']
    } else {
        seq![' ', ' ', '\n'] + fence + seq!['\n'] + pad + joined(text, seq!['\n'] + pad) + seq!['\n']
            + fence + seq!['\n', '\n']
    }
}

/// Writes the doc comment block for `text` under an item indented by `prefix`.
pub fn format_comments(prefix: &String, text: Vec<String>) -> (r: String)
    ensures
        r@ == comment_block(prefix@, crate::model::texts(text@)),
{
    let ghost ts = crate::model::texts(text@);
    let mut r = String::new();
    append_str(&mut r, "  \n");
    proof {
        reveal_strlit("  \n");
    }
    if text.len() == 0 {
        assert(r@ =~= comment_block(prefix@, ts));
        return r;
    }
    proof {
        reveal_strlit("    ");
        reveal_strlit("\n");
        reveal_strlit("```\n");
        reveal_strlit("```\n\n");
    }
    let mut pad = String::new();
    append_str(&mut pad, prefix.as_str());
    append_str(&mut pad, "    ");
    assert(pad@ =~= prefix@ + seq![' ', ' ', ' ', ' ']);
    let mut sep = String::new();
    append_str(&mut sep, "\n");
    append_str(&mut sep, pad.as_str());
    assert(sep@ =~= seq!['\n'] + pad@);
    append_str(&mut r, pad.as_str());
    append_str(&mut r, "```\n");
    append_str(&mut r, pad.as_str());
    let mut body = String::new();
    let mut i: usize = 0;
    while i < text.len()
        invariant
            i <= text@.len(),
            ts == crate::model::texts(text@),
            body@ == joined(ts.subrange(0, i as int), sep@),
        decreases text@.len() - i,
    {
        assert(ts.subrange(0, i + 1).drop_last() =~= ts.subrange(0, i as int));
        if i > 0 {
            append_str(&mut body, sep.as_str());
        }
        append_str(&mut body, text[i].as_str());
        i += 1;
    }
    assert(ts.subrange(0, i as int) =~= ts);
    append_str(&mut r, body.as_str());
    append_str(&mut r, "\n");
    append_str(&mut r, pad.as_str());
    append_str(&mut r, "```\n\n");
    let ghost fence = pad@ + seq!['`', '`', '`'];
    assert(r@ =~= seq![' ', ' ', '\n'] + fence + seq!['\n'] + pad@ + joined(ts, seq!['\n'] + pad@)
        + seq!['\n'] + fence + seq!['\n', '\n']);
    assert(r@ =~= comment_block(prefix@, ts));
    r
}

} // verus!
