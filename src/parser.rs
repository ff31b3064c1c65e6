//! The indentation-driven block state machine over the lines of one file.

use vstd::prelude::*;
use crate::dispatch::{
    class_name, decl_fails, decl_name, decl_type, drain, enum_decl_step, named_outcome, others_same, parse_class_content, ClassMode,
    EnumMode, Opened,
};
use crate::enums::parse_enum_values;
use crate::error::{ErrorKind, ParseError};
use crate::frame::{add_entries, entries_view, frame_entries, in_category_order, lemma_frame_entries_ordered, ClassFrame};
use crate::enums::{enum_entries, enum_values_view, visible, EnumAcc};
use crate::model::{texts, DocumentationData, DocumentationEntry, EntryType, Symbol, SymbolArgs};
use crate::scanner::{find, find_spec, Matcher};
use crate::text::{
    chars_of, find_char, has_prefix, slice_of, split, starts_with_at, string_of, trim, trim_bounds,
};

verus! {

/// The physical lines of a file, read one at a time, with a 1-based count of
/// the lines read so far.
pub struct FileIterator {
    lines: Vec<String>,
    lineno: usize,
}

impl FileIterator {
    pub closed spec fn remaining(&self) -> int {
        self.lines@.len() - self.lineno
    }

    pub closed spec fn well_formed(&self) -> bool {
        self.lineno <= self.lines@.len()
    }

    pub closed spec fn count(&self) -> usize {
        self.lineno
    }

    /// The text of the physical line at index `i`.
    pub closed spec fn line_at(&self, i: int) -> Seq<char> {
        self.lines@[i]@
    }

    /// The texts of all the lines.
    pub closed spec fn all_lines(&self) -> Seq<Seq<char>> {
        texts(self.lines@)
    }

    pub closed spec fn total(&self) -> int {
        self.lines@.len() as int
    }

    pub fn new(lines: Vec<String>) -> (r: FileIterator)
        ensures
            r.well_formed(),
            r.count() == 0,
            r.total() == lines@.len(),
            r.all_lines() == texts(lines@),
    {
        FileIterator { lines, lineno: 0 }
    }

    /// How many lines have been read.
    pub fn lineno(&self) -> (r: usize)
        ensures
            r == self.count(),
    {
        self.lineno
    }

    pub fn has_next(&self) -> (r: bool)
        requires
            self.well_formed(),
        ensures
            r == (self.remaining() > 0),
    {
        self.lineno < self.lines.len()
    }

    /// The characters of the next line, if there is one.
    pub fn next(&mut self) -> (r: Option<Vec<char>>)
        requires
            old(self).well_formed(),
        ensures
            final(self).well_formed(),
            final(self).total() == old(self).total(),
            final(self).all_lines() == old(self).all_lines(),
            old(self).count() < old(self).total() ==> old(self).all_lines()[old(self).count() as int]
                == old(self).line_at(old(self).count() as int),
            old(self).all_lines().len() == old(self).total(),
            old(self).remaining() > 0 ==> final(self).count() == old(self).count() + 1 && (r matches Some(
                v,
            ) && v@ == old(self).line_at(old(self).count() as int)),
            old(self).remaining() <= 0 ==> r is None && final(self).count() == old(self).count(),
    {
        if self.lineno < self.lines.len() {
            let v = chars_of(self.lines[self.lineno].as_str());
            self.lineno += 1;
            Some(v)
        } else {
            None
        }
    }
}

/// The number of leading tabs of `s`.
pub open spec fn indentation(s: Seq<char>) -> int
    decreases s.len(),
{
    if s.len() > 0 && s[0] == '\t' {
        1 + indentation(s.drop_first())
    } else {
        0
    }
}

/// Counts the tabs that `s` starts with; a space or any other character ends
/// the count.
pub fn get_indentation_level(s: &Vec<char>) -> (r: usize)
    ensures
        r == indentation(s@),
{
    let n = s.len();
    let mut i: usize = 0;
    assert(s@.subrange(0, n as int) =~= s@);
    while i < n && s[i] == '\t'
        invariant
            n == s@.len(),
            i <= n,
            forall|k: int| 0 <= k < i ==> s@[k] == '\t',
            indentation(s@) == i + indentation(s@.subrange(i as int, n as int)),
        decreases n - i,
    {
        assert(s@.subrange(i as int, n as int).drop_first() =~= s@.subrange(i + 1, n as int));
        i += 1;
    }
    assert(indentation(s@.subrange(i as int, n as int)) == 0);
    i
}

/// A line that asks to be joined with the next one: it ends in `\` and holds
/// no `#`.
pub open spec fn continues(l: Seq<char>) -> bool {
    l.len() > 0 && l.last() == '\\' && forall|k: int| 0 <= k < l.len() ==> l[k] != '#'
}

/// The logical lines of the physical lines `phys` from index `i` on, after
/// the lines `done` and the line `cur` being joined; `None` when the input
/// ends while a line asks for a continuation.
pub open spec fn join_lines(phys: Seq<Seq<char>>, i: int, done: Seq<Seq<char>>, cur: Option<Seq<char>>) -> Option<
    Seq<Seq<char>>,
>
    decreases phys.len() - i, if cur is Some { 1int } else { 0int },
{
    if i < 0 {
        None
    } else {
        match cur {
            Some(c) => if continues(c) {
                if i < phys.len() {
                    join_lines(phys, i + 1, done, Some(c.drop_last() + phys[i]))
                } else {
                    None
                }
            } else {
                join_lines(phys, i, done.push(c), None)
            },
            None => if i < phys.len() {
                join_lines(phys, i + 1, done, Some(phys[i]))
            } else {
                Some(done)
            },
        }
    }
}

proof fn lemma_join_keeps_done(phys: Seq<Seq<char>>, i: int, done: Seq<Seq<char>>, cur: Option<Seq<char>>)
    ensures
        join_lines(phys, i, done, cur) matches Some(r) ==> r.len() >= done.len() && r.subrange(
            0,
            done.len() as int,
        ) == done,
    decreases phys.len() - i, if cur is Some { 1int } else { 0int },
{
    if i >= 0 {
        match cur {
            Some(c) => if continues(c) {
                if i < phys.len() {
                    lemma_join_keeps_done(phys, i + 1, done, Some(c.drop_last() + phys[i]));
                }
            } else {
                lemma_join_keeps_done(phys, i, done.push(c), None);
                if let Some(r) = join_lines(phys, i, done, cur) {
                    assert(r.subrange(0, done.len() as int) =~= r.subrange(0, done.len() + 1int).subrange(
                        0,
                        done.len() as int,
                    ));
                    assert(done.push(c).subrange(0, done.len() as int) =~= done);
                }
            },
            None => if i < phys.len() {
                lemma_join_keeps_done(phys, i + 1, done, Some(phys[i]));
            } else {
                assert(done.subrange(0, done.len() as int) =~= done);
            },
        }
    }
}

/// The parse stops at the logical line `ls[i]`: a parse of the lines
/// before it leaves a state from which that line cannot be read.
pub open spec fn stops_at(ls: Seq<Seq<char>>, i: int, show_private: bool) -> bool {
    0 <= i < ls.len() && exists|ps: Seq<LineParser>|
        #[trigger] parsed_in_order(ps, ls.take(i), show_private) && !(exists|st1: LineParser|
            fed(ps.last(), ls[i], st1))
}

/// The logical lines of a file.
pub open spec fn logical_lines(phys: Seq<Seq<char>>) -> Option<Seq<Seq<char>>> {
    join_lines(phys, 0, Seq::empty(), None)
}

/// Whether `l` holds a `#`.
fn has_hash(l: &Vec<char>) -> (r: bool)
    ensures
        r == exists|k: int| 0 <= k < l@.len() && l@[k] == '#',
{
    match find_char(l, 0, l.len(), '#') {
        Some(_) => true,
        None => false,
    }
}

/// The next logical line, `first` being the physical line just read.
fn read_logical_line(filename: &str, it: &mut FileIterator, first: Vec<char>) -> (r: Result<
    Vec<char>,
    ParseError,
>)
    requires
        old(it).well_formed(),
        old(it).count() >= 1,
    ensures
        final(it).well_formed(),
        final(it).total() == old(it).total(),
        final(it).all_lines() == old(it).all_lines(),
        final(it).count() >= old(it).count(),
        r matches Ok(l) ==> forall|done: Seq<Seq<char>>|
            join_lines(old(it).all_lines(), old(it).count() as int, done, Some(first@)) == join_lines(
                old(it).all_lines(),
                final(it).count() as int,
                #[trigger] done.push(l@),
                None,
            ),
        r is Err ==> forall|done: Seq<Seq<char>>|
            #[trigger] join_lines(old(it).all_lines(), old(it).count() as int, done, Some(first@)) is None,
        r matches Err(e) ==> e.file@ == filename@ && e.kind == ErrorKind::UnterminatedContinuation
            && e.line == old(it).total() && e.line >= 1,
{
    let ghost phys = it.all_lines();
    let ghost c0 = it.count();
    let mut l = first;
    while l.len() > 0 && l[l.len() - 1] == '\\' && !has_hash(&l)
        invariant
            it.well_formed(),
            it.total() == old(it).total(),
            it.all_lines() == phys,
            phys.len() == it.total(),
            it.count() >= c0,
            c0 == old(it).count(),
            c0 >= 1,
            phys == old(it).all_lines(),
            forall|done: Seq<Seq<char>>|
                join_lines(phys, c0 as int, done, Some(first@)) == #[trigger] join_lines(
                    phys,
                    it.count() as int,
                    done,
                    Some(l@),
                ),
        decreases it.remaining(),
    {
        let ghost before = l@;
        assert(continues(before));
        l.pop();
        assert(l@ == before.drop_last());
        match it.next() {
            Some(next) => {
                let mut next = next;
                l.append(&mut next);
                assert forall|done: Seq<Seq<char>>|
                    join_lines(phys, c0 as int, done, Some(first@)) == #[trigger] join_lines(
                        phys,
                        it.count() as int,
                        done,
                        Some(l@),
                    ) by {
                    assert(join_lines(phys, it.count() - 1, done, Some(before)) == join_lines(
                        phys,
                        it.count() as int,
                        done,
                        Some(before.drop_last() + phys[it.count() - 1]),
                    ));
                }
            },
            None => {
                assert forall|done: Seq<Seq<char>>|
                    #[trigger] join_lines(phys, c0 as int, done, Some(first@)) is None by {
                    assert(join_lines(phys, it.count() as int, done, Some(before)) is None);
                }
                return Err(ParseError::new(filename, it.lineno(), ErrorKind::UnterminatedContinuation));
            },
        }
    }
    assert(!continues(l@));
    assert forall|done: Seq<Seq<char>>|
        join_lines(phys, c0 as int, done, Some(first@)) == #[trigger] join_lines(
            phys,
            it.count() as int,
            done.push(l@),
            None,
        ) by {
        assert(join_lines(phys, it.count() as int, done, Some(l@)) == join_lines(
            phys,
            it.count() as int,
            done.push(l@),
            None,
        ));
    }
    Ok(l)
}

pub open spec fn show_directive() -> Seq<char> {
    seq!['[', 'S', 'h', 'o', 'w', ']']
}

pub open spec fn hide_directive() -> Seq<char> {
    seq!['[', 'H', 'i', 'd', 'e', ']']
}

/// Whether `v[a..b]` is exactly `p`.
fn range_is(v: &Vec<char>, a: usize, b: usize, p: &Vec<char>) -> (r: bool)
    requires
        a <= b <= v@.len(),
    ensures
        r == (v@.subrange(a as int, b as int) == p@),
{
    if b - a != p.len() {
        return false;
    }
    let r = starts_with_at(v, a, p);
    assert(v@.subrange(a as int, v@.len() as int).subrange(0, p@.len() as int) =~= v@.subrange(
        a as int,
        b as int,
    ));
    r
}

/// `s1` is `s0` with the symbol `sym` added to category `t` of the innermost
/// open class, or of the top level when no class is open.
pub open spec fn pushed_innermost(
    base0: ClassFrame,
    classes0: Seq<ClassMode>,
    base1: ClassFrame,
    classes1: Seq<ClassMode>,
    t: EntryType,
    sym: Symbol,
) -> bool {
    if classes0.len() == 0 {
        &&& classes1.len() == 0
        &&& base1.list(t) == base0.list(t).push(sym)
        &&& others_same(base0, base1, t)
    } else {
        let c0 = classes0.last();
        let c1 = classes1.last();
        &&& base1 == base0
        &&& classes1.len() == classes0.len()
        &&& classes1.drop_last() == classes0.drop_last()
        &&& c1.frame.list(t) == c0.frame.list(t).push(sym)
        &&& others_same(c0.frame, c1.frame, t)
        &&& c1.name == c0.name && c1.outer_indent == c0.outer_indent && c1.indent == c0.indent
        &&& c1.text == c0.text && c1.hidden == c0.hidden
    }
}

/// Adds a finished symbol of category `t` to the innermost open class, or to
/// the top level.
fn push_to_parent(base: &mut ClassFrame, classes: &mut Vec<ClassMode>, t: EntryType, s: Symbol)
    ensures
        pushed_innermost(*old(base), old(classes)@, *final(base), final(classes)@, t, s),
{
    if classes.len() > 0 {
        let ghost before = classes@;
        let mut c = classes.pop().unwrap();
        c.frame.push(t, s);
        classes.push(c);
        assert(classes@.drop_last() =~= before.drop_last());
    } else {
        base.push(t, s);
    }
}

/// The indentation of the body of `c`, or `level` while no line fixed it.
pub open spec fn body_indent(c: ClassMode, level: int) -> int {
    match c.indent {
        Some(i) => i as int,
        None => level,
    }
}

/// `(base1, classes1)` is `(base0, classes0)` with the innermost class
/// closed: unless it is hidden, it becomes a class symbol, with the entries
/// of its frame, in the class around it or at the top level.
pub open spec fn closed_innermost(
    base0: ClassFrame,
    classes0: Seq<ClassMode>,
    base1: ClassFrame,
    classes1: Seq<ClassMode>,
) -> bool {
    let c = classes0.last();
    if c.hidden {
        base1 == base0 && classes1 == classes0.drop_last()
    } else {
        exists|sym: Symbol|
            #[trigger] pushed_innermost(base0, classes0.drop_last(), base1, classes1, EntryType::CLASS, sym)
                && sym.name == c.name && sym.text == c.text && (sym.args matches Some(
                SymbolArgs::ClassArgs(es),
            ) && entries_view(es@) == frame_entries(c.frame))
    }
}

/// Closes the innermost open class and adds it to its parent, unless it is hidden.
fn close_class(base: &mut ClassFrame, classes: &mut Vec<ClassMode>)
    requires
        old(classes)@.len() > 0,
    ensures
        closed_innermost(*old(base), old(classes)@, *final(base), final(classes)@),
        final(classes)@.len() == old(classes)@.len() - 1,
{
    let ghost cl0 = classes@;
    let c = classes.pop().unwrap();
    let ghost c0 = c;
    let ClassMode { name, outer_indent: _, indent: _, frame, text, hidden } = c;
    if !hidden {
        let ghost f = frame;
        let mut entries: Vec<DocumentationEntry> = Vec::new();
        add_entries(&mut entries, frame);
        assert(entries_view(entries@) =~= frame_entries(f));
        let sym = Symbol { name, args: Some(SymbolArgs::ClassArgs(entries)), text };
        let ghost g = sym;
        push_to_parent(base, classes, EntryType::CLASS, sym);
        assert(pushed_innermost(*old(base), cl0.drop_last(), *base, classes@, EntryType::CLASS, g));
    }
}

/// Closes an enum body and adds it to its parent; it takes the pending doc comment.
fn close_enum(base: &mut ClassFrame, classes: &mut Vec<ClassMode>, e: EnumMode, comments: &mut Vec<String>)
    ensures
        exists|sym: Symbol|
            pushed_innermost(*old(base), old(classes)@, *final(base), final(classes)@, EntryType::ENUM, sym)
                && sym.name == e.name && sym.text@ == old(comments)@ && (sym.args matches Some(
                SymbolArgs::EnumArgs(v),
            ) && v@ == e.values@),
        final(comments)@.len() == 0,
{
    let EnumMode { name, counter: _, values } = e;
    let text = drain(comments);
    let sym = Symbol { name, args: Some(SymbolArgs::EnumArgs(values)), text };
    let ghost g = sym;
    push_to_parent(base, classes, EntryType::ENUM, sym);
    assert(pushed_innermost(*old(base), old(classes)@, *base, classes@, EntryType::ENUM, g));
}

/// The text of a comment that starts at position `p` of `l`.
pub open spec fn comment_of(l: Seq<char>, p: int) -> Seq<char> {
    trim(l.subrange(p + 1, l.len() as int))
}

pub open spec fn warning_marker() -> Seq<char> {
    seq!['w', 'a', 'r', 'n', 'i', 'n', 'g', '-', 'i', 'g', 'n', 'o', 'r', 'e', ':']
}

/// The visibility directive after a comment `c`.
pub open spec fn directive_after(c: Seq<char>, over: Option<bool>) -> Option<bool> {
    if c == show_directive() {
        Some(true)
    } else if c == hide_directive() {
        Some(false)
    } else {
        over
    }
}

/// The doc comment after a comment `c`: directives and `warning-ignore:`
/// comments are not documentation.
pub open spec fn comments_after(cs: Seq<Seq<char>>, c: Seq<char>) -> Seq<Seq<char>> {
    if c == show_directive() || c == hide_directive() || has_prefix(c, warning_marker()) {
        cs
    } else {
        cs.push(c)
    }
}

/// The parse of a file so far: the top-level frame, the open class blocks
/// (innermost last), an open enum body, the pending doc comment and
/// directive, and the brackets left open by earlier lines.
pub struct LineParser {
    pub base: ClassFrame,
    pub classes: Vec<ClassMode>,
    pub open_enum: Option<EnumMode>,
    pub comments: Vec<String>,
    pub over: Option<bool>,
    pub parentheses: Vec<char>,
    pub show_private: bool,
}

impl LineParser {
    pub open spec fn well_formed(&self) -> bool {
        self.open_enum matches Some(e) ==> isize::MIN <= e.counter <= isize::MAX + 1
    }

    /// Nothing read yet.
    pub open spec fn is_fresh(&self, show_private: bool) -> bool {
        &&& forall|t: EntryType| (#[trigger] self.base.list(t)).len() == 0
        &&& self.classes@.len() == 0
        &&& self.open_enum is None
        &&& self.comments@.len() == 0
        &&& self.over is None
        &&& self.parentheses@.len() == 0
        &&& self.show_private == show_private
    }

    pub fn new(show_private: bool) -> (r: LineParser)
        ensures
            r.is_fresh(show_private),
            r.well_formed(),
    {
        LineParser {
            base: ClassFrame::new(),
            classes: Vec::new(),
            open_enum: None,
            comments: Vec::new(),
            over: None,
            parentheses: Vec::new(),
            show_private,
        }
    }
}

/// The declaration `code` follows its grammar and changed the frame `f0`
/// into `f1` as its category asks: a visible symbol of its category was added with the doc comment
/// `cs`, or a block was opened (`opened` are the classes it opened, `en` the
/// enum body left open).
pub open spec fn frame_step(
    f0: ClassFrame,
    f1: ClassFrame,
    opened: Seq<ClassMode>,
    en: Option<EnumMode>,
    code: Seq<char>,
    level: int,
    cs: Seq<Seq<char>>,
    show_private: bool,
    ov: Option<bool>,
) -> bool {
    !decl_fails(code, show_private, ov) && match decl_type(code) {
        None => f1 == f0 && opened.len() == 0 && en is None,
        Some(EntryType::CLASS) => f1 == f0 && en is None && opened.len() == 1 && opened[0].name@
            == class_name(code) && texts(
            opened[0].text@,
        ) == cs && opened[0].outer_indent == level && opened[0].indent is None && opened[0].hidden
            == !visible(opened[0].name@, show_private, ov) && forall|t: EntryType|
            (#[trigger] opened[0].frame.list(t)).len() == 0,
        Some(t) => {
            let before = f0.list(t);
            let now = f1.list(t);
            &&& others_same(f0, f1, t)
            &&& opened.len() == 0
            &&& (en is Some ==> t == EntryType::ENUM)
            &&& now == before || (now.len() == before.len() + 1 && now.drop_last() == before
                && visible(now.last().name@, show_private, ov) && texts(now.last().text@) == cs)
            &&& match decl_name(code, t) {
                Some(name) => named_outcome(before, now, code, t, name, show_private, ov),
                None => true,
            }
            &&& t == EntryType::ENUM ==> enum_decl_step(code, true, f0, f1, cs, en, show_private, ov)
        },
    }
}

/// At the top level, the code of the line goes to the top-level frame as it is.
pub open spec fn top_level_step(
    st0: LineParser,
    code: Seq<char>,
    level: int,
    cs: Seq<Seq<char>>,
    ov: Option<bool>,
    st1: LineParser,
) -> bool {
    frame_step(st0.base, st1.base, st1.classes@, st1.open_enum, code, level, cs, st0.show_private, ov)
}

/// In a class body whose indentation is known, or fixed by this line, a line
/// at that indentation goes, trimmed, to the class's frame, and a line
/// indented deeper changes nothing.
pub open spec fn class_step(
    st0: LineParser,
    code: Seq<char>,
    level: int,
    cs: Seq<Seq<char>>,
    ov: Option<bool>,
    st1: LineParser,
) -> bool {
    let n = st0.classes@.len() as int;
    let c0 = st0.classes@.last();
    let c1 = st1.classes@[n - 1];
    let ind = match c0.indent {
        Some(i) => i as int,
        None => level,
    };
    level >= ind ==> {
        &&& c0.indent is None ==> level > c0.outer_indent
        &&& st1.base == st0.base
        &&& st1.classes@.len() >= n
        &&& st1.classes@.subrange(0, n - 1) == st0.classes@.drop_last()
        &&& c1.name == c0.name && c1.outer_indent == c0.outer_indent && c1.text == c0.text
            && c1.hidden == c0.hidden && c1.indent == Some(ind as usize)
        &&& if level == ind {
            frame_step(
                c0.frame,
                c1.frame,
                st1.classes@.subrange(n, st1.classes@.len() as int),
                st1.open_enum,
                trim(code),
                level,
                cs,
                st0.show_private,
                ov,
            )
        } else {
            c1.frame == c0.frame && st1.classes@.len() == n && st1.open_enum is None
        }
    }
}

/// `k` is the position of the first `}` of `code`, or its length when it has none.
pub open spec fn first_brace(code: Seq<char>, k: int) -> bool {
    &&& 0 <= k <= code.len()
    &&& k < code.len() ==> code[k] == '}'
    &&& forall|j: int| 0 <= j < k ==> code[j] != '}'
}

/// Inside the open enum body `e`, the line `code` adds the entries before
/// its first `}`; a `}` closes the body, whose symbol goes to the innermost
/// open class, or to the top level, with the doc comment still pending.
pub open spec fn enum_step(
    show_private: bool,
    base0: ClassFrame,
    classes0: Seq<ClassMode>,
    e: EnumMode,
    code: Seq<char>,
    cs: Seq<Seq<char>>,
    ov: Option<bool>,
    base1: ClassFrame,
    classes1: Seq<ClassMode>,
    en1: Option<EnumMode>,
) -> bool {
    exists|k: int|
        #[trigger] first_brace(code, k) && match enum_entries(
            split(code.subrange(0, k), ','),
            EnumAcc { values: enum_values_view(e.values@), counter: e.counter as int, pending: cs },
            show_private,
            ov,
        ) {
            Ok(acc) => if k < code.len() {
                en1 is None && exists|sym: Symbol|
                    #[trigger] pushed_innermost(base0, classes0, base1, classes1, EntryType::ENUM, sym)
                        && sym.name == e.name && texts(sym.text@) == acc.pending && (sym.args matches Some(
                        SymbolArgs::EnumArgs(v),
                    ) && enum_values_view(v@) == acc.values)
            } else {
                &&& en1 matches Some(e1) && e1.name == e.name && e1.counter == acc.counter
                    && enum_values_view(e1.values@) == acc.values
                &&& base1 == base0 && classes1 == classes0
            },
            Err(_) => false,
        }
}

/// Reads the line `l[..hi]` inside the open enum body `e`.
fn feed_enum(
    filename: &str,
    lineno: usize,
    l: &Vec<char>,
    hi: usize,
    e: EnumMode,
    base: &mut ClassFrame,
    classes: &mut Vec<ClassMode>,
    comments: &mut Vec<String>,
    show_private: bool,
    over: Option<bool>,
) -> (r: Result<Option<EnumMode>, ParseError>)
    requires
        hi <= l@.len(),
        isize::MIN <= e.counter <= isize::MAX + 1,
    ensures
        r matches Ok(en1) ==> enum_step(
            show_private,
            *old(base),
            old(classes)@,
            e,
            l@.subrange(0, hi as int),
            texts(old(comments)@),
            over,
            *final(base),
            final(classes)@,
            en1,
        ),
        r matches Ok(Some(e1)) ==> isize::MIN <= e1.counter <= isize::MAX + 1,
        r matches Err(err) ==> err.file@ == filename@ && err.line == lineno,
        r is Err ==> forall|base1: ClassFrame, classes1: Seq<ClassMode>, en1: Option<EnumMode>|
            !#[trigger] enum_step(
                show_private,
                *old(base),
                old(classes)@,
                e,
                l@.subrange(0, hi as int),
                texts(old(comments)@),
                over,
                base1,
                classes1,
                en1,
            ),
{
    let ghost code = l@.subrange(0, hi as int);
    let ghost e0 = e;
    let ghost cs = texts(comments@);
    let mut e = e;
    let end = find_char(l, 0, hi, '}');
    let ehi = match end {
        Some(x) => x,
        None => hi,
    };
    assert(first_brace(code, ehi as int));
    assert(l@.subrange(0, ehi as int) =~= code.subrange(0, ehi as int));
    assert forall|k: int| first_brace(code, k) implies k == ehi by {}
    e.counter = match parse_enum_values(
        filename,
        lineno,
        l,
        0,
        ehi,
        e.counter,
        show_private,
        over,
        comments,
        &mut e.values,
    ) {
        Ok(c) => c,
        Err(err) => {
            return Err(err);
        },
    };
    let ghost acc = enum_entries(
        split(code.subrange(0, ehi as int), ','),
        EnumAcc { values: enum_values_view(e0.values@), counter: e0.counter as int, pending: cs },
        show_private,
        over,
    )->Ok_0;
    if end.is_some() {
        let ghost pending = comments@;
        let ghost e1 = e;
        close_enum(base, classes, e, comments);
        assert(texts(pending) == acc.pending);
        assert(exists|sym: Symbol|
            #[trigger] pushed_innermost(*old(base), old(classes)@, *base, classes@, EntryType::ENUM, sym)
                && sym.name == e0.name && texts(sym.text@) == acc.pending && (sym.args matches Some(
                SymbolArgs::EnumArgs(v),
            ) && enum_values_view(v@) == acc.values));
        Ok(None)
    } else {
        Ok(Some(e))
    }
}

/// The indentations of the open classes: of the body, once fixed, and of
/// the `class` line.
pub open spec fn shape(cl: Seq<ClassMode>) -> Seq<(Option<usize>, usize)> {
    cl.map_values(|c: ClassMode| (c.indent, c.outer_indent))
}

proof fn lemma_closed_shape(base0: ClassFrame, cl0: Seq<ClassMode>, base1: ClassFrame, cl1: Seq<ClassMode>)
    requires
        cl0.len() > 0,
        closed_innermost(base0, cl0, base1, cl1),
    ensures
        shape(cl1) == shape(cl0.drop_last()),
{
    if !cl0.last().hidden {
        let sym = choose|sym: Symbol|
            #[trigger] pushed_innermost(base0, cl0.drop_last(), base1, cl1, EntryType::CLASS, sym)
                && sym.name == cl0.last().name && sym.text == cl0.last().text && (sym.args matches Some(
                SymbolArgs::ClassArgs(es),
            ) && entries_view(es@) == frame_entries(cl0.last().frame));
        let d = cl0.drop_last();
        if d.len() > 0 {
            assert forall|i: int| 0 <= i < d.len() implies shape(cl1)[i] == shape(d)[i] by {
                if i < d.len() - 1 {
                    assert(cl1[i] == cl1.drop_last()[i]);
                    assert(d[i] == d.drop_last()[i]);
                }
            }
        }
    }
    assert(shape(cl1) =~= shape(cl0.drop_last()));
}

proof fn lemma_chains_agree(ms1: Seq<LineParser>, ms2: Seq<LineParser>, level: int, i: int)
    requires
        dedents(ms1, level),
        dedents(ms2, level),
        shape(ms1[0].classes@) == shape(ms2[0].classes@),
        0 <= i < ms1.len(),
        i < ms2.len(),
    ensures
        shape(ms1[i].classes@) == shape(ms2[i].classes@),
    decreases i,
{
    if i > 0 {
        lemma_chains_agree(ms1, ms2, level, i - 1);
        let a = ms1[i - 1].classes@;
        let b = ms2[i - 1].classes@;
        assert(ms1[i - 1].classes@.len() > 0);
        assert(ms2[i - 1].classes@.len() > 0);
        lemma_closed_shape(ms1[i - 1].base, a, ms1[i].base, ms1[i].classes@);
        lemma_closed_shape(ms2[i - 1].base, b, ms2[i].base, ms2[i].classes@);
        assert(shape(a.drop_last()) =~= shape(b.drop_last())) by {
            assert(shape(a).len() == shape(b).len());
            assert forall|j: int| 0 <= j < a.len() - 1 implies shape(a.drop_last())[j] == shape(
                b.drop_last(),
            )[j] by {
                assert(shape(a)[j] == shape(b)[j]);
            }
        }
    }
}

/// At the state `m`, with its classes already closed as far as the line
/// asks, the line cannot be read: a class body's first line is not indented
/// past the class, or the declaration breaks its grammar.
pub open spec fn stuck(m: LineParser, code: Seq<char>, level: int, ov: Option<bool>) -> bool {
    let cl = m.classes@;
    if cl.len() == 0 {
        decl_fails(code, m.show_private, ov)
    } else {
        let c = cl.last();
        (c.indent is None && level <= c.outer_indent) || (level == body_indent(c, level) && decl_fails(
            trim(code),
            m.show_private,
            ov,
        ))
    }
}

proof fn lemma_last_agrees(ms: Seq<LineParser>, ms2: Seq<LineParser>, level: int, i: int)
    requires
        dedents(ms, level),
        dedents(ms2, level),
        shape(ms[0].classes@) == shape(ms2[0].classes@),
        0 <= i < ms.len(),
        i < ms2.len(),
    ensures
        ms[i].classes@.len() == ms2[i].classes@.len(),
        ms[i].classes@.len() > 0 ==> ms[i].classes@.last().indent == ms2[i].classes@.last().indent
            && ms[i].classes@.last().outer_indent == ms2[i].classes@.last().outer_indent,
{
    lemma_chains_agree(ms, ms2, level, i);
    let a = ms[i].classes@;
    let b = ms2[i].classes@;
    assert(shape(a).len() == shape(b).len());
    if a.len() > 0 {
        assert(shape(a)[a.len() - 1] == shape(b)[b.len() - 1]);
    }
}

proof fn lemma_stuck_final(
    m1: LineParser,
    m2: LineParser,
    code: Seq<char>,
    level: int,
    cs: Seq<Seq<char>>,
    ov: Option<bool>,
    st1: LineParser,
)
    requires
        m1.classes@.len() == m2.classes@.len(),
        m1.classes@.len() > 0 ==> m1.classes@.last().indent == m2.classes@.last().indent
            && m1.classes@.last().outer_indent == m2.classes@.last().outer_indent,
        m1.show_private == m2.show_private,
        stuck(m1, code, level, ov),
    ensures
        !((m2.classes@.len() == 0 ==> top_level_step(m2, code, level, cs, ov, st1)) && (
        m2.classes@.len() > 0 ==> level >= body_indent(m2.classes@.last(), level) && class_step(
            m2,
            code,
            level,
            cs,
            ov,
            st1,
        ))),
{
}

proof fn lemma_stuck_blocks(
    st0: LineParser,
    code: Seq<char>,
    level: int,
    cs: Seq<Seq<char>>,
    ov: Option<bool>,
    ms: Seq<LineParser>,
    st1: LineParser,
)
    requires
        dedents(ms, level),
        ms[0].classes@ == st0.classes@,
        ms.last().show_private == st0.show_private,
        stuck(ms.last(), code, level, ov),
    ensures
        !block_step(st0, code, level, cs, ov, st1),
{
    if block_step(st0, code, level, cs, ov, st1) {
        let ms2 = choose|ms2: Seq<LineParser>|
            #[trigger] dedents(ms2, level) && ms2[0].base == st0.base && ms2[0].classes@
                == st0.classes@ && ms2.last().show_private == st0.show_private && (
            ms2.last().classes@.len() == 0 ==> top_level_step(ms2.last(), code, level, cs, ov, st1))
                && (ms2.last().classes@.len() > 0 ==> level >= body_indent(
                ms2.last().classes@.last(),
                level,
            ) && class_step(ms2.last(), code, level, cs, ov, st1));
        let n1 = ms.len() as int;
        let n2 = ms2.len() as int;
        if n2 < n1 {
            lemma_last_agrees(ms, ms2, level, n2 - 1);
            assert(ms[n2 - 1].classes@.len() > 0);
        } else if n2 > n1 {
            lemma_last_agrees(ms, ms2, level, n1 - 1);
            assert(ms2[n1 - 1].classes@.len() > 0);
        } else {
            lemma_last_agrees(ms, ms2, level, n1 - 1);
            lemma_stuck_final(ms.last(), ms2.last(), code, level, cs, ov, st1);
        }
    }
}

/// The frames `ms` close, one after the other, the innermost class, until
/// none is open.
pub open spec fn closes_all(ms: Seq<(ClassFrame, Seq<ClassMode>)>) -> bool {
    &&& ms.len() >= 1
    &&& ms.last().1.len() == 0
    &&& forall|i: int|
        0 <= i < ms.len() - 1 ==> (#[trigger] ms[i]).1.len() > 0 && closed_innermost(
            ms[i].0,
            ms[i].1,
            ms[i + 1].0,
            ms[i + 1].1,
        )
}

/// `(base1, classes1)` are the frames of `st` with its open enum body, if
/// any, closed: its symbol takes the pending doc comment.
pub open spec fn enum_closed(st: LineParser, base1: ClassFrame, classes1: Seq<ClassMode>) -> bool {
    match st.open_enum {
        None => base1 == st.base && classes1 == st.classes@,
        Some(e) => exists|sym: Symbol|
            #[trigger] pushed_innermost(st.base, st.classes@, base1, classes1, EntryType::ENUM, sym)
                && sym.name == e.name && sym.text@ == st.comments@ && (sym.args matches Some(
                SymbolArgs::EnumArgs(v),
            ) && v@ == e.values@),
    }
}

/// At the end of the input, the blocks still open in `st` are folded, the
/// enum body first and then the classes from the innermost out, and `es`
/// are the entries of the top-level frame.
pub open spec fn folded(st: LineParser, es: Seq<(EntryType, Seq<Symbol>)>) -> bool {
    exists|ms: Seq<(ClassFrame, Seq<ClassMode>)>|
        #[trigger] closes_all(ms) && enum_closed(st, ms[0].0, ms[0].1) && es == frame_entries(
            ms.last().0,
        )
}

/// The states `ms` close, one after the other, the innermost class while
/// its body is indented deeper than `level`.
pub open spec fn dedents(ms: Seq<LineParser>, level: int) -> bool {
    &&& ms.len() >= 1
    &&& forall|i: int|
        0 <= i < ms.len() - 1 ==> (#[trigger] ms[i]).classes@.len() > 0 && level < body_indent(
            ms[i].classes@.last(),
            level,
        ) && closed_innermost(ms[i].base, ms[i].classes@, ms[i + 1].base, ms[i + 1].classes@)
}

/// Outside an enum body, a line with code first closes the classes whose
/// bodies are indented deeper than it; then it goes to the top level, or to
/// the class that is left innermost.
pub open spec fn block_step(
    st0: LineParser,
    code: Seq<char>,
    level: int,
    cs: Seq<Seq<char>>,
    ov: Option<bool>,
    st1: LineParser,
) -> bool {
    exists|ms: Seq<LineParser>|
        #[trigger] dedents(ms, level) && ms[0].base == st0.base && ms[0].classes@ == st0.classes@
            && ms.last().show_private == st0.show_private && (ms.last().classes@.len() == 0
            ==> top_level_step(ms.last(), code, level, cs, ov, st1)) && (ms.last().classes@.len() > 0
            ==> level >= body_indent(ms.last().classes@.last(), level) && class_step(
            ms.last(),
            code,
            level,
            cs,
            ov,
            st1,
        ))
}

/// The code of line `l` (before any comment), and the doc comment and
/// directive after the line's comment.
pub open spec fn line_parts(
    st0: LineParser,
    l: Seq<char>,
    code: Seq<char>,
    cs: Seq<Seq<char>>,
    ov: Option<bool>,
) -> bool {
    match find_spec(l, seq!['#'], true, st0.parentheses@) {
        Err(_) => false,
        Ok((pos, _)) => {
            &&& code == l.subrange(
                0,
                match pos {
                    Some(p) => p,
                    None => l.len() as int,
                },
            )
            &&& cs == match pos {
                Some(p) => comments_after(texts(st0.comments@), comment_of(l, p)),
                None => texts(st0.comments@),
            }
            &&& ov == match pos {
                Some(p) => directive_after(comment_of(l, p), st0.over),
                None => st0.over,
            }
        },
    }
}

proof fn lemma_not_fed(
    st0: LineParser,
    l: Seq<char>,
    code: Seq<char>,
    cs: Seq<Seq<char>>,
    ov: Option<bool>,
    st1: LineParser,
)
    requires
        line_parts(st0, l, code, cs, ov),
        st0.open_enum is None,
        !(st0.classes@.len() > 0 && trim(code).len() == 0),
        !block_step(st0, code, indentation(l), cs, ov, st1),
    ensures
        !fed(st0, l, st1),
{
    reveal(fed);
}

/// Reading the logical line `l` took the parser from `st0` to `st1`: the
/// comment marker is found outside strings with the brackets that earlier
/// lines left open; a comment feeds the doc comment or sets a directive;
/// both are cleared after a line with code; and at the top level the code
/// is dispatched as a declaration.
#[verifier::opaque]
pub open spec fn fed(st0: LineParser, l: Seq<char>, st1: LineParser) -> bool {
    match find_spec(l, seq!['#'], true, st0.parentheses@) {
        Err(_) => false,
        Ok((pos, st)) => {
            let end = match pos {
                Some(p) => p,
                None => l.len() as int,
            };
            let code = l.subrange(0, end);
            let cs = match pos {
                Some(p) => comments_after(texts(st0.comments@), comment_of(l, p)),
                None => texts(st0.comments@),
            };
            let ov = match pos {
                Some(p) => directive_after(comment_of(l, p), st0.over),
                None => st0.over,
            };
            let blank_in_class = st0.open_enum is None && st0.classes@.len() > 0 && trim(code).len()
                == 0;
            let clear = code.len() > 0 && !blank_in_class;
            &&& st1.parentheses@ == st
            &&& st1.show_private == st0.show_private
            &&& clear ==> st1.comments@.len() == 0 && st1.over is None
            &&& !clear ==> st1.over == ov
            &&& !clear && st0.open_enum is None ==> texts(st1.comments@) == cs
            &&& st0.open_enum matches Some(e) ==> enum_step(
                st0.show_private,
                st0.base,
                st0.classes@,
                e,
                code,
                cs,
                ov,
                st1.base,
                st1.classes@,
                st1.open_enum,
            )
            &&& st0.open_enum is None && !blank_in_class ==> block_step(
                st0,
                code,
                indentation(l),
                cs,
                ov,
                st1,
            )
        },
    }
}

impl LineParser {
    /// Reads one logical line, the `lineno`-th physical line being its last:
    /// `fed` says what it does.
    #[verifier::rlimit(80)]
    pub fn feed(&mut self, filename: &str, lineno: usize, l: &Vec<char>) -> (r: Result<(), ParseError>)
        requires
            old(self).well_formed(),
        ensures
            final(self).well_formed(),
            r is Ok ==> fed(*old(self), l@, *final(self)),
            (exists|st1: LineParser| fed(*old(self), l@, st1)) ==> r is Ok,
            r matches Err(e) ==> e.file@ == filename@ && e.line == lineno,
    {
        proof {
            reveal(fed);
        }
        let ghost st0 = *self;
        let show_private = self.show_private;
        let level = get_indentation_level(l);
        let mut parens: Vec<char> = Vec::new();
        std::mem::swap(&mut parens, &mut self.parentheses);
        let (pos, st) = find(filename, lineno, l, &Matcher::Char('#'), true, parens)?;
        self.parentheses = st;
        let mut hi = l.len();
        if let Some(p) = pos {
            let (a, b) = trim_bounds(l, p + 1, hi);
            let comment = slice_of(l, a, b);
            let warning = vec!['w', 'a', 'r', 'n', 'i', 'n', 'g', '-', 'i', 'g', 'n', 'o', 'r', 'e', ':'];
            assert(warning@ =~= warning_marker());
            assert(comment@.subrange(0, comment@.len() as int) =~= comment@);
            let show = vec!['[', 'S', 'h', 'o', 'w', ']'];
            let hide = vec!['[', 'H', 'i', 'd', 'e', ']'];
            assert(show@ =~= show_directive());
            assert(hide@ =~= hide_directive());
            assert(comment@ == comment_of(l@, p as int));
            if range_is(l, a, b, &show) {
                self.over = Some(true);
            } else if range_is(l, a, b, &hide) {
                self.over = Some(false);
            } else if !starts_with_at(&comment, 0, &warning) {
                let ghost before = self.comments@;
                self.comments.push(string_of(l, a, b));
                assert(texts(self.comments@) =~= texts(before).push(comment@));
            }
            hi = p;
        }
        let ghost cs = texts(self.comments@);
        let ghost ov = self.over;
        let ghost code = l@.subrange(0, hi as int);
        let ghost par = self.parentheses;
        let mut keep_comments = false;
        let current = self.open_enum.take();
        match current {
            Some(e) => {
                self.open_enum = feed_enum(
                    filename,
                    lineno,
                    l,
                    hi,
                    e,
                    &mut self.base,
                    &mut self.classes,
                    &mut self.comments,
                    show_private,
                    self.over,
                )?;
            },
            None => {
                let (ta, tb) = trim_bounds(l, 0, hi);
                if self.classes.len() > 0 && ta == tb {
                    keep_comments = true;
                } else {
                    let ghost tcode = l@.subrange(ta as int, tb as int);
                    assert(tcode == trim(code));
                    assert(line_parts(st0, l@, code, cs, ov));
                    let ghost mut ms: Seq<LineParser> = seq![*self];
                    let mut done = false;
                    while !done
                        invariant
                            self.open_enum matches Some(e) ==> isize::MIN <= e.counter
                                <= isize::MAX + 1,
                            ta <= tb <= hi <= l@.len(),
                            code == l@.subrange(0, hi as int),
                            tcode == l@.subrange(ta as int, tb as int),
                            tcode == trim(code),
                            line_parts(st0, l@, code, cs, ov),
                            st0 == *old(self),
                            st0.open_enum is None,
                            !(st0.classes@.len() > 0 && trim(code).len() == 0),
                            level == indentation(l@),
                            show_private == st0.show_private,
                            self.show_private == st0.show_private,
                            self.over == ov,
                            self.parentheses == par,
                            dedents(ms, level as int),
                            ms[0].base == st0.base && ms[0].classes@ == st0.classes@,
                            ms.last().show_private == st0.show_private,
                            !done ==> self.base == ms.last().base && self.classes@
                                == ms.last().classes@ && self.open_enum is None && texts(
                                self.comments@,
                            ) == cs,
                            done ==> ms.last().classes@.len() == 0 ==> top_level_step(
                                ms.last(),
                                code,
                                level as int,
                                cs,
                                ov,
                                *self,
                            ) && (decl_type(code) is None ==> texts(self.comments@) == cs),
                            done ==> ms.last().classes@.len() > 0 ==> level >= body_indent(
                                ms.last().classes@.last(),
                                level as int,
                            ) && class_step(ms.last(), code, level as int, cs, ov, *self),
                        decreases if done { 0int } else { self.classes@.len() + 1int },
                    {
                        if self.classes.len() == 0 {
                            let text = slice_of(l, 0, hi);
                            let opened = match parse_class_content(
                                filename,
                                lineno,
                                &text,
                                level,
                                &mut self.base,
                                &mut self.comments,
                                show_private,
                                self.over,
                            ) {
                                Ok(o) => o,
                                Err(err) => {
                                    proof {
                                        assert(stuck(ms.last(), code, level as int, ov));
                                        assert forall|st1: LineParser| !fed(st0, l@, st1) by {
                                            lemma_stuck_blocks(st0, code, level as int, cs, ov, ms, st1);
                                            lemma_not_fed(st0, l@, code, cs, ov, st1);
                                        }
                                    }
                                    return Err(err);
                                },
                            };
                            match opened {
                                Some(Opened::Class(c)) => {
                                    self.classes.push(c);
                                },
                                Some(Opened::Enum(e)) => {
                                    self.open_enum = Some(e);
                                },
                                None => {},
                            }
                            done = true;
                        } else {
                            let ghost m = ms.last();
                            let ghost before = self.classes@;
                            let ghost n0 = before.len() as int;
                            let mut c = self.classes.pop().unwrap();
                            assert(self.classes@ =~= before.drop_last());
                            let ind = match c.indent {
                                Some(i) => i,
                                None => {
                                    if level > c.outer_indent {
                                        c.indent = Some(level);
                                        level
                                    } else {
                                        proof {
                                            assert(stuck(ms.last(), code, level as int, ov));
                                            assert forall|st1: LineParser| !fed(st0, l@, st1) by {
                                                lemma_stuck_blocks(
                                                    st0,
                                                    code,
                                                    level as int,
                                                    cs,
                                                    ov,
                                                    ms,
                                                    st1,
                                                );
                                                lemma_not_fed(st0, l@, code, cs, ov, st1);
                                            }
                                        }
                                        return Err(
                                            ParseError::new(
                                                filename,
                                                lineno,
                                                ErrorKind::IndentationExpected,
                                            ),
                                        );
                                    }
                                },
                            };
                            assert(ind as int == body_indent(m.classes@.last(), level as int));
                            if level == ind {
                                let text = slice_of(l, ta, tb);
                                let opened = match parse_class_content(
                                    filename,
                                    lineno,
                                    &text,
                                    level,
                                    &mut c.frame,
                                    &mut self.comments,
                                    show_private,
                                    self.over,
                                ) {
                                    Ok(o) => o,
                                    Err(err) => {
                                        proof {
                                            assert(stuck(ms.last(), code, level as int, ov));
                                            assert forall|st1: LineParser| !fed(st0, l@, st1) by {
                                                lemma_stuck_blocks(
                                                    st0,
                                                    code,
                                                    level as int,
                                                    cs,
                                                    ov,
                                                    ms,
                                                    st1,
                                                );
                                                lemma_not_fed(st0, l@, code, cs, ov, st1);
                                            }
                                        }
                                        return Err(err);
                                    },
                                };
                                self.classes.push(c);
                                let ghost mid = self.classes@;
                                assert(mid.len() == before.len());
                                match opened {
                                    Some(Opened::Class(c)) => {
                                        self.classes.push(c);
                                    },
                                    Some(Opened::Enum(e)) => {
                                        self.open_enum = Some(e);
                                    },
                                    None => {},
                                }
                                proof {
                                    assert(self.classes@.subrange(0, mid.len() as int) =~= mid);
                                    assert(mid.subrange(0, mid.len() - 1) =~= before.drop_last());
                                    assert(self.classes@.subrange(0, mid.len() - 1) =~= before.drop_last());
                                    assert(self.classes@[n0 - 1] == mid[n0 - 1]);
                                    assert(self.classes@.subrange(n0, self.classes@.len() as int)
                                        =~= match opened {
                                        Some(Opened::Class(c2)) => seq![c2],
                                        _ => Seq::<ClassMode>::empty(),
                                    });
                                    assert(class_step(m, code, level as int, cs, ov, *self));
                                }
                                done = true;
                            } else if level < ind {
                                self.classes.push(c);
                                assert(self.classes@ =~= before);
                                close_class(&mut self.base, &mut self.classes);
                                proof {
                                    let ms2 = ms.push(*self);
                                    assert forall|i: int| 0 <= i < ms2.len() - 1 implies (
                                    #[trigger] ms2[i]).classes@.len() > 0 && level < body_indent(
                                        ms2[i].classes@.last(),
                                        level as int,
                                    ) && closed_innermost(
                                        ms2[i].base,
                                        ms2[i].classes@,
                                        ms2[i + 1].base,
                                        ms2[i + 1].classes@,
                                    ) by {
                                        if i < ms.len() - 1 {
                                            assert(ms2[i] == ms[i] && ms2[i + 1] == ms[i + 1]);
                                        }
                                    }
                                    ms = ms2;
                                }
                            } else {
                                self.classes.push(c);
                                assert(self.classes@.subrange(0, before.len() - 1) =~= before.drop_last());
                                assert(class_step(m, code, level as int, cs, ov, *self));
                                done = true;
                            }
                        }
                    }
                }
            },
        }
        if !keep_comments && hi > 0 {
            self.comments.clear();
            self.over = None;
        }
        Ok(())
    }

    /// Closes the blocks still open at the end of the input and returns the
    /// documentation of the file.
    pub fn finish(self, filename: &str) -> (r: DocumentationData)
        ensures
            r.source_file@ == filename@,
            in_category_order(entries_view(r.entries@)),
            self.classes@.len() == 0 && self.open_enum is None ==> entries_view(r.entries@) == frame_entries(self.base),
            folded(self, entries_view(r.entries@)),
    {
        let ghost s0 = self;
        let LineParser { base, classes, open_enum, comments, over: _, parentheses: _, show_private: _ } = self;
        let mut base = base;
        let mut classes = classes;
        let mut comments = comments;
        match open_enum {
            Some(e) => close_enum(&mut base, &mut classes, e, &mut comments),
            None => {},
        }
        assert(enum_closed(s0, base, classes@));
        let ghost mut ms: Seq<(ClassFrame, Seq<ClassMode>)> = seq![(base, classes@)];
        while classes.len() > 0
            invariant
                s0.classes@.len() == 0 && s0.open_enum is None ==> base == s0.base && classes@.len() == 0,
                ms.len() >= 1,
                ms.last() == (base, classes@),
                enum_closed(s0, ms[0].0, ms[0].1),
                forall|i: int|
                    0 <= i < ms.len() - 1 ==> (#[trigger] ms[i]).1.len() > 0 && closed_innermost(
                        ms[i].0,
                        ms[i].1,
                        ms[i + 1].0,
                        ms[i + 1].1,
                    ),
            decreases classes@.len(),
        {
            close_class(&mut base, &mut classes);
            proof {
                let ms2 = ms.push((base, classes@));
                assert forall|i: int| 0 <= i < ms2.len() - 1 implies (#[trigger] ms2[i]).1.len() > 0
                    && closed_innermost(ms2[i].0, ms2[i].1, ms2[i + 1].0, ms2[i + 1].1) by {
                    if i < ms.len() - 1 {
                        assert(ms2[i] == ms[i] && ms2[i + 1] == ms[i + 1]);
                    }
                }
                ms = ms2;
            }
        }
        assert(closes_all(ms));
        let ghost f = base;
        let mut entries: Vec<DocumentationEntry> = Vec::new();
        add_entries(&mut entries, base);
        proof {
            lemma_frame_entries_ordered(f);
            assert(entries_view(entries@) =~= frame_entries(f));
            assert(ms.last().0 == f);
        }
        DocumentationData { source_file: string_of(&chars_of(filename), 0, filename.unicode_len()), entries }
    }
}

/// The parser states `ps` come from reading the logical lines `ls` one
/// after the other, from a fresh parser.
pub open spec fn parsed_in_order(ps: Seq<LineParser>, ls: Seq<Seq<char>>, show_private: bool) -> bool {
    &&& ps.len() == ls.len() + 1
    &&& ps[0].is_fresh(show_private)
    &&& forall|i: int| 0 <= i < ls.len() ==> fed(#[trigger] ps[i], ls[i], ps[i + 1])
}

/// The entries `es` document the physical lines `phys`: a fresh parser read
/// their logical lines one after the other, and `es` are the entries of its
/// top-level frame once the blocks still open are folded.
pub open spec fn documents(phys: Seq<Seq<char>>, show_private: bool, es: Seq<(EntryType, Seq<Symbol>)>) -> bool {
    match logical_lines(phys) {
        Some(ls) => exists|ps: Seq<LineParser>|
            #[trigger] parsed_in_order(ps, ls, show_private) && folded(ps.last(), es),
        None => false,
    }
}

/// Parses the lines of the file `filename` into its documentation: the
/// physical lines are joined into logical lines, which a fresh parser reads
/// one after the other; symbols whose names start with `_` are kept only
/// with `show_private`, or when a `[Show]` directive comes right before them.
pub fn parse_file(filename: &str, lines: Vec<String>, show_private: bool) -> (r: Result<
    DocumentationData,
    ParseError,
>)
    ensures
        r matches Ok(d) ==> d.source_file@ == filename@ && in_category_order(
            entries_view(d.entries@),
        ) && documents(texts(lines@), show_private, entries_view(d.entries@)),
        logical_lines(texts(lines@)) is None ==> r is Err,
        r matches Err(e) ==> e.file@ == filename@ && 1 <= e.line <= lines@.len(),
        r is Err ==> match logical_lines(texts(lines@)) {
            None => true,
            Some(ls) => exists|i: int| stops_at(ls, i, show_private),
        },
{
    let mut parser = LineParser::new(show_private);
    let mut it = FileIterator::new(lines);
    let ghost phys = texts(lines@);
    let ghost mut ls: Seq<Seq<char>> = Seq::empty();
    let ghost mut ps: Seq<LineParser> = seq![parser];
    while it.has_next()
        invariant
            it.well_formed(),
            parser.well_formed(),
            it.all_lines() == phys,
            phys.len() == it.total(),
            phys == texts(lines@),
            logical_lines(phys) == join_lines(phys, it.count() as int, ls, None),
            parsed_in_order(ps, ls, show_private),
            ps.last() == parser,
        decreases it.remaining(),
    {
        let ghost c = it.count();
        let first = it.next().unwrap();
        assert(join_lines(phys, c as int, ls, None) == join_lines(phys, c + 1, ls, Some(first@)));
        let l = read_logical_line(filename, &mut it, first)?;
        let ghost st0 = parser;
        proof {
            lemma_join_keeps_done(phys, it.count() as int, ls.push(l@), None);
        }
        match parser.feed(filename, it.lineno(), &l) {
            Ok(()) => {},
            Err(e) => {
                proof {
                    if let Some(lsf) = logical_lines(phys) {
                        let i = ls.len() as int;
                        assert(lsf.subrange(0, i + 1) == ls.push(l@));
                        assert(lsf.take(i) =~= ls);
                        assert(lsf.subrange(0, i + 1)[i] == lsf[i]);
                        assert(lsf[i] == l@);
                        assert(parsed_in_order(ps, lsf.take(i), show_private));
                        assert(stops_at(lsf, i, show_private));
                    }
                }
                return Err(e);
            },
        }
        proof {
            let ps2 = ps.push(parser);
            let ls2 = ls.push(l@);
            assert forall|i: int| 0 <= i < ls2.len() implies fed(#[trigger] ps2[i], ls2[i], ps2[i + 1]) by {
                if i < ls.len() {
                    assert(ps2[i] == ps[i] && ps2[i + 1] == ps[i + 1] && ls2[i] == ls[i]);
                }
            }
            ps = ps2;
            ls = ls2;
        }
    }
    assert(join_lines(phys, it.count() as int, ls, None) == Some(ls));
    let d = parser.finish(filename);
    assert(phys == texts(lines@));
    let ghost es = entries_view(d.entries@);
    assert(documents(phys, show_private, es)) by {
        let ll = logical_lines(phys);
        assert(ll == Some(ls));
        assert(ll->Some_0 == ls);
        assert(parsed_in_order(ps, ll->Some_0, show_private));
    }
    Ok(d)
}

} // verus!
