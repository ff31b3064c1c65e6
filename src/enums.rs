//! Enum bodies: comma-separated `name[=value]` entries with auto-increment.

use vstd::prelude::*;
use crate::error::{ErrorKind, ParseError};
use crate::model::{texts, EnumValue};
use crate::text::{
    find_char, lemma_split_at, lemma_split_first, lemma_split_none, lemma_split_nonempty, split, trim, trim_bounds,
    trimmed,
};

verus! {

pub open spec fn is_digit(c: char) -> bool {
    '0' <= c && c <= '9'
}

pub open spec fn digit_value(c: char) -> int {
    (c as int) - ('0' as int)
}

/// The value of a string of decimal digits.
pub open spec fn digits_value(s: Seq<char>) -> int
    decreases s.len(),
{
    if s.len() == 0 {
        0
    } else {
        10 * digits_value(s.drop_last()) + digit_value(s.last())
    }
}

pub open spec fn all_digits(s: Seq<char>) -> bool {
    forall|k: int| 0 <= k < s.len() ==> is_digit(#[trigger] s[k])
}

/// `s` without a leading sign.
pub open spec fn unsigned_part(s: Seq<char>) -> Seq<char> {
    if s.len() > 0 && (s[0] == '-' || s[0] == '+') {
        s.drop_first()
    } else {
        s
    }
}

/// The integer written in `s`: an optional sign and one or more decimal
/// digits, within the range of `isize`.
pub open spec fn parse_isize_spec(s: Seq<char>) -> Option<int> {
    let ds = unsigned_part(s);
    let v = if s.len() > 0 && s[0] == '-' {
        -digits_value(ds)
    } else {
        digits_value(ds)
    };
    if ds.len() == 0 || !all_digits(ds) {
        None
    } else if isize::MIN <= v && v <= isize::MAX {
        Some(v)
    } else {
        None
    }
}

proof fn lemma_digits_grow(s: Seq<char>, i: int)
    requires
        0 <= i <= s.len(),
        forall|k: int| 0 <= k < s.len() ==> is_digit(#[trigger] s[k]),
    ensures
        0 <= digits_value(s.subrange(0, i)) <= digits_value(s),
    decreases s.len(),
{
    if s.len() > 0 {
        if i == s.len() {
            assert(s.subrange(0, i) =~= s);
            lemma_digits_grow(s.drop_last(), i - 1);
            assert(s.drop_last().subrange(0, i - 1) =~= s.drop_last());
        } else {
            lemma_digits_grow(s.drop_last(), i);
            assert(s.drop_last().subrange(0, i) =~= s.subrange(0, i));
            lemma_digits_grow(s.drop_last(), s.len() - 1);
            assert(s.drop_last().subrange(0, s.len() - 1) =~= s.drop_last());
        }
    }
}

/// Parses `v[lo..hi]` as an `isize`.
pub fn parse_isize(v: &Vec<char>, lo: usize, hi: usize) -> (r: Option<isize>)
    requires
        lo <= hi <= v@.len(),
    ensures
        r matches Some(x) ==> parse_isize_spec(v@.subrange(lo as int, hi as int)) == Some(
            x as int,
        ),
        r is None ==> parse_isize_spec(v@.subrange(lo as int, hi as int)) is None,
{
    let ghost s = v@.subrange(lo as int, hi as int);
    let signed = lo < hi && (v[lo] == '-' || v[lo] == '+');
    let neg = lo < hi && v[lo] == '-';
    let start = if signed {
        lo + 1
    } else {
        lo
    };
    let ghost ds = v@.subrange(start as int, hi as int);
    assert(s.len() > 0 ==> s[0] == v@[lo as int]);
    assert(signed ==> ds =~= s.drop_first());
    assert(!signed ==> ds =~= s);
    if start == hi {
        return None;
    }
    let max: u64 = isize::MAX as u64;
    let limit: u64 = max / 10;
    let mut acc: u64 = 0;
    let mut i = start;
    while i < hi
        invariant
            lo <= start <= i <= hi <= v@.len(),
            ds == v@.subrange(start as int, hi as int),
            s == v@.subrange(lo as int, hi as int),
            signed == (s.len() > 0 && (s[0] == '-' || s[0] == '+')),
            neg == (s.len() > 0 && s[0] == '-'),
            ds == unsigned_part(s),
            forall|k: int| start <= k < i ==> is_digit(#[trigger] v@[k]),
            acc as int == digits_value(v@.subrange(start as int, i as int)),
            max == isize::MAX,
            limit == max / 10,
            acc <= 10 * limit + 9,
        decreases hi - i,
    {
        let c = v[i];
        if !('0' <= c && c <= '9') {
            assert(!is_digit(ds[i - start]));
            assert(!all_digits(ds));
            return None;
        }
        assert(v@.subrange(start as int, i + 1).drop_last() =~= v@.subrange(start as int, i as int));
        assert(digits_value(v@.subrange(start as int, i + 1)) == 10 * acc + digit_value(c));
        if acc > limit {
            proof {
                if all_digits(ds) {
                    lemma_digits_grow(ds, i + 1 - start);
                    assert(ds.subrange(0, i + 1 - start) =~= v@.subrange(start as int, i + 1));
                    assert(digits_value(ds) > isize::MAX + 1);
                }
            }
            return None;
        }
        acc = acc * 10 + ((c as u32) - ('0' as u32)) as u64;
        i += 1;
    }
    assert(v@.subrange(start as int, i as int) =~= ds);
    if neg {
        if acc <= max {
            Some(-(acc as isize))
        } else if acc == max + 1 {
            Some(isize::MIN)
        } else {
            None
        }
    } else {
        if acc <= max {
            Some(acc as isize)
        } else {
            None
        }
    }
}

/// A symbol name is private when it starts with `_`.
pub open spec fn is_private(name: Seq<char>) -> bool {
    name.len() > 0 && name[0] == '_'
}

/// Whether a symbol named `name` enters the tree: a `[Show]` or `[Hide]`
/// directive decides; without one, a private name needs `show_private`.
pub open spec fn visible(name: Seq<char>, show_private: bool, over: Option<bool>) -> bool {
    match over {
        Some(b) => b,
        None => !is_private(name) || show_private,
    }
}

pub fn is_visible(name: &Vec<char>, show_private: bool, over: Option<bool>) -> (r: bool)
    ensures
        r == visible(name@, show_private, over),
{
    match over {
        Some(b) => b,
        None => !(name.len() > 0 && name[0] == '_') || show_private,
    }
}

/// A value: name, value, doc comment.
pub type EnumValueView = (Seq<char>, int, Seq<Seq<char>>);

pub open spec fn enum_value_view(e: EnumValue) -> EnumValueView {
    (e.name@, e.value as int, texts(e.text@))
}

pub open spec fn enum_values_view(v: Seq<EnumValue>) -> Seq<EnumValueView> {
    v.map_values(|e: EnumValue| enum_value_view(e))
}

/// The values so far, the next implicit value, and the doc comment waiting
/// for the next value.
pub struct EnumAcc {
    pub values: Seq<EnumValueView>,
    pub counter: int,
    pub pending: Seq<Seq<char>>,
}

/// The name of the entry `p`: its text before any `=`, trimmed.
pub open spec fn entry_name(p: Seq<char>) -> Seq<char> {
    trim(split(p, '=')[0])
}

/// The explicit value of the entry `p`: its text after the first `=`, up to
/// any second one, when that parses as an integer.
pub open spec fn entry_explicit(p: Seq<char>) -> Option<int> {
    let parts = split(p, '=');
    if parts.len() > 1 {
        parse_isize_spec(trim(parts[1]))
    } else {
        None
    }
}

/// The effect of one comma-separated entry `p`: an empty name is skipped; an
/// explicit value that parses as an integer is taken, else the running
/// counter; the counter becomes the value plus one.
pub open spec fn enum_entry(p: Seq<char>, acc: EnumAcc, show_private: bool, over: Option<bool>) -> Result<
    EnumAcc,
    ErrorKind,
> {
    let name = entry_name(p);
    if name.len() == 0 {
        Ok(acc)
    } else {
        let value = match entry_explicit(p) {
            Some(x) => x,
            None => acc.counter,
        };
        if value > isize::MAX {
            Err(ErrorKind::InvalidSyntax)
        } else if visible(name, show_private, over) {
            Ok(
                EnumAcc {
                    values: acc.values.push((name, value, acc.pending)),
                    counter: value + 1,
                    pending: Seq::empty(),
                },
            )
        } else {
            Ok(EnumAcc { counter: value + 1, ..acc })
        }
    }
}

/// The effect of the entries `ps`, in order.
pub open spec fn enum_entries(ps: Seq<Seq<char>>, acc: EnumAcc, show_private: bool, over: Option<bool>) -> Result<
    EnumAcc,
    ErrorKind,
>
    decreases ps.len(),
{
    if ps.len() == 0 {
        Ok(acc)
    } else {
        match enum_entries(ps.drop_last(), acc, show_private, over) {
            Ok(a) => enum_entry(ps.last(), a, show_private, over),
            Err(k) => Err(k),
        }
    }
}

/// The entries of `ps` that have a name, in order.
pub open spec fn named_entries(ps: Seq<Seq<char>>) -> Seq<Seq<char>>
    decreases ps.len(),
{
    if ps.len() == 0 {
        Seq::empty()
    } else if entry_name(ps.last()).len() > 0 {
        named_entries(ps.drop_last()).push(ps.last())
    } else {
        named_entries(ps.drop_last())
    }
}

/// In an enum body read from its start with every value shown, the values are
/// the named entries in order, and each value is the entry's explicit value
/// when it has one, else the previous value plus one, the first such value
/// being 0.
pub proof fn lemma_enum_values_increment(ps: Seq<Seq<char>>, pending: Seq<Seq<char>>)
    requires
        enum_entries(ps, EnumAcc { values: Seq::empty(), counter: 0, pending }, true, None) is Ok,
    ensures
        ({
            let a = enum_entries(ps, EnumAcc { values: Seq::empty(), counter: 0, pending }, true, None)->Ok_0;
            let named = named_entries(ps);
            &&& a.values.len() == named.len()
            &&& forall|j: int| 0 <= j < a.values.len() ==> (#[trigger] a.values[j]).0 == entry_name(named[j])
            &&& forall|j: int| 0 <= j < a.values.len() ==> (#[trigger] a.values[j]).1 == match entry_explicit(named[j]) {
                Some(x) => x,
                None => if j == 0 {
                    0
                } else {
                    a.values[j - 1].1 + 1
                },
            }
        }),
{
    lemma_enum_values_counter(ps, pending);
}

proof fn lemma_enum_values_counter(ps: Seq<Seq<char>>, pending: Seq<Seq<char>>)
    requires
        enum_entries(ps, EnumAcc { values: Seq::empty(), counter: 0, pending }, true, None) is Ok,
    ensures
        ({
            let a = enum_entries(ps, EnumAcc { values: Seq::empty(), counter: 0, pending }, true, None)->Ok_0;
            let named = named_entries(ps);
            &&& a.values.len() == named.len()
            &&& a.counter == if a.values.len() == 0 {
                0
            } else {
                a.values.last().1 + 1
            }
            &&& forall|j: int| 0 <= j < a.values.len() ==> (#[trigger] a.values[j]).0 == entry_name(named[j])
            &&& forall|j: int| 0 <= j < a.values.len() ==> (#[trigger] a.values[j]).1 == match entry_explicit(named[j]) {
                Some(x) => x,
                None => if j == 0 {
                    0
                } else {
                    a.values[j - 1].1 + 1
                },
            }
        }),
    decreases ps.len(),
{
    let acc0 = EnumAcc { values: Seq::empty(), counter: 0, pending };
    if ps.len() > 0 {
        let prev = ps.drop_last();
        if enum_entries(prev, acc0, true, None) is Err {
            assert(enum_entries(ps, acc0, true, None) is Err);
        } else {
            lemma_enum_values_counter(prev, pending);
            let a = enum_entries(prev, acc0, true, None)->Ok_0;
            let b = enum_entries(ps, acc0, true, None)->Ok_0;
            assert(enum_entries(ps, acc0, true, None) == enum_entry(ps.last(), a, true, None));
            if entry_name(ps.last()).len() > 0 {
                assert(visible(entry_name(ps.last()), true, None));
                assert(b.values == a.values.push(
                    (
                        entry_name(ps.last()),
                        match entry_explicit(ps.last()) {
                            Some(x) => x,
                            None => a.counter,
                        },
                        a.pending,
                    ),
                ));
                assert(named_entries(ps) == named_entries(prev).push(ps.last()));
            } else {
                assert(b == a);
                assert(named_entries(ps) == named_entries(prev));
            }
        }
    } else {
        assert(named_entries(ps) =~= Seq::<Seq<char>>::empty());
    }
}

/// Enum entries fail only on a value out of range.
pub proof fn lemma_entries_error_kind(ps: Seq<Seq<char>>, acc: EnumAcc, show_private: bool, over: Option<bool>)
    ensures
        enum_entries(ps, acc, show_private, over) matches Err(k) ==> k == ErrorKind::InvalidSyntax,
    decreases ps.len(),
{
    if ps.len() > 0 {
        lemma_entries_error_kind(ps.drop_last(), acc, show_private, over);
    }
}

proof fn lemma_entries_error(
    xs: Seq<Seq<char>>,
    ys: Seq<Seq<char>>,
    acc: EnumAcc,
    show_private: bool,
    over: Option<bool>,
)
    requires
        enum_entries(xs, acc, show_private, over) is Err,
    ensures
        enum_entries(xs + ys, acc, show_private, over) == enum_entries(xs, acc, show_private, over),
    decreases ys.len(),
{
    if ys.len() == 0 {
        assert(xs + ys =~= xs);
    } else {
        lemma_entries_error(xs, ys.drop_last(), acc, show_private, over);
        assert((xs + ys).drop_last() =~= xs + ys.drop_last());
    }
}

/// Parses one entry `v[lo..hi]`.
fn parse_enum_entry(
    filename: &str,
    lineno: usize,
    v: &Vec<char>,
    lo: usize,
    hi: usize,
    counter: i128,
    show_private: bool,
    over: Option<bool>,
    comments: &mut Vec<String>,
    values: &mut Vec<EnumValue>,
) -> (r: Result<i128, ParseError>)
    requires
        lo <= hi <= v@.len(),
        isize::MIN <= counter <= isize::MAX + 1,
    ensures
        match (
            r,
            enum_entry(
                v@.subrange(lo as int, hi as int),
                EnumAcc {
                    values: enum_values_view(old(values)@),
                    counter: counter as int,
                    pending: texts(old(comments)@),
                },
                show_private,
                over,
            ),
        ) {
            (Ok(c), Ok(acc)) => c == acc.counter && enum_values_view(final(values)@) == acc.values
                && texts(final(comments)@) == acc.pending,
            (Err(e), Err(k)) => e.is_at(filename@, lineno, k),
            _ => false,
        },
        r matches Ok(c) ==> isize::MIN <= c <= isize::MAX + 1,
{
    let ghost p = v@.subrange(lo as int, hi as int);
    let eq = find_char(v, lo, hi, '=');
    let name_end = match eq {
        Some(e) => e,
        None => hi,
    };
    let mut explicit: Option<isize> = None;
    match eq {
        None => {
            proof {
                lemma_split_none(p, '=');
            }
        },
        Some(e) => {
            let ghost rest = v@.subrange(e + 1, hi as int);
            proof {
                lemma_split_first(p, '=', e - lo);
                assert(p.subrange(0, e - lo) =~= v@.subrange(lo as int, e as int));
                assert(p.subrange(e - lo + 1, p.len() as int) =~= rest);
                lemma_split_nonempty(rest, '=');
            }
            let vend = match find_char(v, e + 1, hi, '=') {
                Some(e2) => {
                    proof {
                        lemma_split_first(rest, '=', e2 - e - 1);
                        assert(rest.subrange(0, e2 - e - 1) =~= v@.subrange(e + 1, e2 as int));
                    }
                    e2
                },
                None => {
                    proof {
                        lemma_split_none(rest, '=');
                    }
                    hi
                },
            };
            let (a, b) = trim_bounds(v, e + 1, vend);
            explicit = parse_isize(v, a, b);
        },
    }
    let (na, nb) = trim_bounds(v, lo, name_end);
    if na == nb {
        return Ok(counter);
    }
    let value: i128 = match explicit {
        Some(x) => x as i128,
        None => counter,
    };
    if value > isize::MAX as i128 {
        return Err(ParseError::new(filename, lineno, ErrorKind::InvalidSyntax));
    }
    let name = trimmed(v, lo, name_end);
    let mut name_chars: Vec<char> = Vec::new();
    if nb > na {
        name_chars.push(v[na]);
    }
    assert(name_chars@.len() > 0 ==> name_chars@[0] == name@[0]);
    if is_visible(&name_chars, show_private, over) {
        let mut text: Vec<String> = Vec::new();
        std::mem::swap(comments, &mut text);
        let ghost old_values = values@;
        values.push(EnumValue { name, value: value as isize, text });
        assert(enum_values_view(values@) =~= enum_values_view(old_values).push(
            enum_value_view(values@.last()),
        ));
        assert(texts(comments@) =~= Seq::<Seq<char>>::empty());
    }
    Ok(value + 1)
}

/// Parses the entries of `v[lo..hi]`, appending each visible value to
/// `values`; the first value appended takes the pending doc comment.
/// Returns the next implicit value.
pub fn parse_enum_values(
    filename: &str,
    lineno: usize,
    v: &Vec<char>,
    lo: usize,
    hi: usize,
    counter: i128,
    show_private: bool,
    over: Option<bool>,
    comments: &mut Vec<String>,
    values: &mut Vec<EnumValue>,
) -> (r: Result<i128, ParseError>)
    requires
        lo <= hi <= v@.len(),
        isize::MIN <= counter <= isize::MAX + 1,
    ensures
        match (
            r,
            enum_entries(
                split(v@.subrange(lo as int, hi as int), ','),
                EnumAcc {
                    values: enum_values_view(old(values)@),
                    counter: counter as int,
                    pending: texts(old(comments)@),
                },
                show_private,
                over,
            ),
        ) {
            (Ok(c), Ok(acc)) => c == acc.counter && enum_values_view(final(values)@) == acc.values
                && texts(final(comments)@) == acc.pending,
            (Err(e), Err(k)) => e.is_at(filename@, lineno, k),
            _ => false,
        },
        r matches Ok(c) ==> isize::MIN <= c <= isize::MAX + 1,
        r matches Err(e) ==> e.kind == ErrorKind::InvalidSyntax,
{
    proof {
        lemma_entries_error_kind(
            split(v@.subrange(lo as int, hi as int), ','),
            EnumAcc {
                values: enum_values_view(values@),
                counter: counter as int,
                pending: texts(comments@),
            },
            show_private,
            over,
        );
    }
    let ghost acc0 = EnumAcc {
        values: enum_values_view(values@),
        counter: counter as int,
        pending: texts(comments@),
    };
    let mut start = lo;
    let mut i = lo;
    let mut ctr = counter;
    while i < hi
        invariant
            lo <= start <= i <= hi <= v@.len(),
            isize::MIN <= ctr <= isize::MAX + 1,
            acc0 == (EnumAcc {
                values: enum_values_view(old(values)@),
                counter: counter as int,
                pending: texts(old(comments)@),
            }),
            split(v@.subrange(lo as int, i as int), ',').last() == v@.subrange(
                start as int,
                i as int,
            ),
            enum_entries(
                split(v@.subrange(lo as int, i as int), ',').drop_last(),
                acc0,
                show_private,
                over,
            ) == Ok::<EnumAcc, ErrorKind>(
                EnumAcc {
                    values: enum_values_view(values@),
                    counter: ctr as int,
                    pending: texts(comments@),
                },
            ),
        decreases hi - i,
    {
        let ghost prev = split(v@.subrange(lo as int, i as int), ',');
        assert(v@.subrange(lo as int, i + 1).drop_last() =~= v@.subrange(lo as int, i as int));
        proof {
            lemma_split_nonempty(v@.subrange(lo as int, i as int), ',');
        }
        if v[i] == ',' {
            let ghost cur = split(v@.subrange(lo as int, i + 1), ',');
            assert(cur.drop_last() =~= prev);
            assert(prev =~= prev.drop_last().push(prev.last()));
            let ghost cur_acc = EnumAcc {
                values: enum_values_view(values@),
                counter: ctr as int,
                pending: texts(comments@),
            };
            assert(enum_entries(prev, acc0, show_private, over) == enum_entry(
                prev.last(),
                cur_acc,
                show_private,
                over,
            ));
            match parse_enum_entry(
                filename,
                lineno,
                v,
                start,
                i,
                ctr,
                show_private,
                over,
                comments,
                values,
            ) {
                Ok(c) => {
                    ctr = c;
                },
                Err(e) => {
                    proof {
                        let whole = v@.subrange(lo as int, hi as int);
                        assert(whole =~= v@.subrange(lo as int, i as int).push(',') + v@.subrange(
                            i + 1,
                            hi as int,
                        ));
                        lemma_split_at(
                            v@.subrange(lo as int, i as int),
                            v@.subrange(i + 1, hi as int),
                            ',',
                        );
                        lemma_entries_error(
                            prev,
                            split(v@.subrange(i + 1, hi as int), ','),
                            acc0,
                            show_private,
                            over,
                        );
                    }
                    return Err(e);
                },
            }
            start = i + 1;
            assert(v@.subrange(start as int, i + 1) =~= Seq::<char>::empty());
        } else {
            let ghost cur = split(v@.subrange(lo as int, i + 1), ',');
            assert(cur.drop_last() =~= prev.drop_last());
            assert(v@.subrange(start as int, i + 1) =~= v@.subrange(start as int, i as int).push(
                v@[i as int],
            ));
        }
        i += 1;
    }
    let ghost all = split(v@.subrange(lo as int, hi as int), ',');
    proof {
        lemma_split_nonempty(v@.subrange(lo as int, hi as int), ',');
        assert(all =~= all.drop_last().push(all.last()));
    }
    parse_enum_entry(filename, lineno, v, start, hi, ctr, show_private, over, comments, values)
}

} // verus!
