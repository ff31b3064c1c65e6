//! Frames that gather the symbols of one block, and how a finished frame
//! becomes a list of documentation entries.

use vstd::prelude::*;
use crate::model::{DocumentationEntry, EntryType, Symbol};

verus! {

/// The symbols of one class body or of the top level, by category.
pub struct ClassFrame {
    pub classes: Vec<Symbol>,
    pub signals: Vec<Symbol>,
    pub functions: Vec<Symbol>,
    pub variables: Vec<Symbol>,
    pub constants: Vec<Symbol>,
    pub exports: Vec<Symbol>,
    pub enums: Vec<Symbol>,
}

impl ClassFrame {
    pub fn new() -> (r: ClassFrame)
        ensures
            forall|t: EntryType| (#[trigger] r.list(t)).len() == 0,
    {
        ClassFrame {
            classes: Vec::new(),
            signals: Vec::new(),
            functions: Vec::new(),
            variables: Vec::new(),
            constants: Vec::new(),
            exports: Vec::new(),
            enums: Vec::new(),
        }
    }

    /// The symbols of category `t`.
    pub open spec fn list(&self, t: EntryType) -> Seq<Symbol> {
        match t {
            EntryType::CLASS => self.classes@,
            EntryType::SIGNAL => self.signals@,
            EntryType::FUNC => self.functions@,
            EntryType::VAR => self.variables@,
            EntryType::CONST => self.constants@,
            EntryType::EXPORT => self.exports@,
            EntryType::ENUM => self.enums@,
        }
    }

    /// Appends `s` to the symbols of category `t`.
    pub fn push(&mut self, t: EntryType, s: Symbol)
        ensures
            final(self).list(t) == old(self).list(t).push(s),
            final(self).list(t).drop_last() == old(self).list(t),
            forall|u: EntryType| u != t ==> final(self).list(u) == old(self).list(u),
    {
        proof {
            assert(self.list(t).push(s).drop_last() =~= self.list(t));
        }
        match t {
            EntryType::CLASS => self.classes.push(s),
            EntryType::SIGNAL => self.signals.push(s),
            EntryType::FUNC => self.functions.push(s),
            EntryType::VAR => self.variables.push(s),
            EntryType::CONST => self.constants.push(s),
            EntryType::EXPORT => self.exports.push(s),
            EntryType::ENUM => self.enums.push(s),
        }
    }
}

/// The place of a category in the output: classes, enums, signals, exports,
/// constants, functions, variables.
pub open spec fn rank(t: EntryType) -> int {
    match t {
        EntryType::CLASS => 0,
        EntryType::ENUM => 1,
        EntryType::SIGNAL => 2,
        EntryType::EXPORT => 3,
        EntryType::CONST => 4,
        EntryType::FUNC => 5,
        EntryType::VAR => 6,
    }
}

/// The category of rank `k`.
pub open spec fn category(k: int) -> EntryType {
    if k == 0 {
        EntryType::CLASS
    } else if k == 1 {
        EntryType::ENUM
    } else if k == 2 {
        EntryType::SIGNAL
    } else if k == 3 {
        EntryType::EXPORT
    } else if k == 4 {
        EntryType::CONST
    } else if k == 5 {
        EntryType::FUNC
    } else {
        EntryType::VAR
    }
}

/// The entries that the categories of rank below `k` give: one per
/// non-empty category, in rank order.
pub open spec fn entries_upto(f: ClassFrame, k: int) -> Seq<(EntryType, Seq<Symbol>)>
    decreases k,
{
    if k <= 0 {
        Seq::empty()
    } else {
        let t = category(k - 1);
        let prev = entries_upto(f, k - 1);
        if f.list(t).len() > 0 {
            prev.push((t, f.list(t)))
        } else {
            prev
        }
    }
}

/// The entries of a finished frame.
pub open spec fn frame_entries(f: ClassFrame) -> Seq<(EntryType, Seq<Symbol>)> {
    entries_upto(f, 7)
}

pub open spec fn entry_view(e: DocumentationEntry) -> (EntryType, Seq<Symbol>) {
    (e.entry_type, e.symbols@)
}

/// The category and symbols of each entry.
pub open spec fn entries_view(es: Seq<DocumentationEntry>) -> Seq<(EntryType, Seq<Symbol>)> {
    es.map_values(|e: DocumentationEntry| entry_view(e))
}

/// Categories appear at most once each, in rank order, and none is empty.
pub open spec fn in_category_order(es: Seq<(EntryType, Seq<Symbol>)>) -> bool {
    &&& forall|i: int, j: int| 0 <= i < j < es.len() ==> rank(es[i].0) < rank(es[j].0)
    &&& forall|i: int| 0 <= i < es.len() ==> es[i].1.len() > 0
}

proof fn lemma_entries_upto_ordered(f: ClassFrame, k: int)
    requires
        0 <= k <= 7,
    ensures
        in_category_order(entries_upto(f, k)),
        forall|i: int| 0 <= i < entries_upto(f, k).len() ==> rank(
            #[trigger] entries_upto(f, k)[i].0,
        ) < k,
        forall|i: int| 0 <= i < entries_upto(f, k).len() ==> (#[trigger] entries_upto(f, k)[i]).1
            == f.list(entries_upto(f, k)[i].0),
    decreases k,
{
    if k > 0 {
        lemma_entries_upto_ordered(f, k - 1);
    }
}

/// The entries of any frame come in the fixed category order, whatever the
/// order in which the frame's symbols were declared, and each holds
/// exactly the symbols of its category.
pub proof fn lemma_frame_entries_ordered(f: ClassFrame)
    ensures
        in_category_order(frame_entries(f)),
        forall|i: int| 0 <= i < frame_entries(f).len() ==> (#[trigger] frame_entries(f)[i]).1
            == f.list(frame_entries(f)[i].0),
        forall|t: EntryType| f.list(t).len() > 0 ==> exists|i: int|
            0 <= i < frame_entries(f).len() && (#[trigger] frame_entries(f)[i]).0 == t,
{
    lemma_entries_upto_ordered(f, 7);
    assert forall|t: EntryType| f.list(t).len() > 0 implies exists|i: int|
        0 <= i < frame_entries(f).len() && (#[trigger] frame_entries(f)[i]).0 == t by {
        assert(category(rank(t)) == t);
        let i = lemma_present(f, rank(t) + 1);
        assert(frame_entries(f)[i].0 == t);
    }
}

proof fn lemma_present(f: ClassFrame, k: int) -> (i: int)
    requires
        1 <= k <= 7,
        f.list(category(k - 1)).len() > 0,
    ensures
        0 <= i < frame_entries(f).len(),
        frame_entries(f)[i].0 == category(k - 1),
{
    let i = entries_upto(f, k).len() - 1;
    assert(entries_upto(f, k)[i].0 == category(k - 1));
    lemma_prefix_kept(f, k, 7);
    assert(entries_upto(f, 7)[i] == entries_upto(f, k)[i]);
    i
}

proof fn lemma_prefix_kept(f: ClassFrame, k: int, m: int)
    requires
        0 <= k <= m <= 7,
    ensures
        entries_upto(f, k).len() <= entries_upto(f, m).len(),
        forall|i: int| 0 <= i < entries_upto(f, k).len() ==> entries_upto(f, m)[i] == entries_upto(
            f,
            k,
        )[i],
    decreases m - k,
{
    if k < m {
        lemma_prefix_kept(f, k, m - 1);
    }
}

fn push_entry(entries: &mut Vec<DocumentationEntry>, t: EntryType, symbols: Vec<Symbol>)
    ensures
        symbols@.len() > 0 ==> final(entries)@ == old(entries)@.push(
            DocumentationEntry { entry_type: t, symbols },
        ),
        symbols@.len() == 0 ==> final(entries)@ == old(entries)@,
{
    if symbols.len() > 0 {
        entries.push(DocumentationEntry { entry_type: t, symbols });
    }
}

/// Appends to `entries` one entry for each non-empty category of `frame`,
/// in the fixed category order.
pub fn add_entries(entries: &mut Vec<DocumentationEntry>, frame: ClassFrame)
    ensures
        final(entries)@.len() == old(entries)@.len() + frame_entries(frame).len(),
        forall|i: int| 0 <= i < old(entries)@.len() ==> final(entries)@[i] == old(entries)@[i],
        forall|i: int|
            old(entries)@.len() <= i < final(entries)@.len() ==> entry_view(
                #[trigger] final(entries)@[i],
            ) == frame_entries(frame)[i - old(entries)@.len()],
{
    let ghost f = frame;
    let ghost n = entries@.len();
    let ClassFrame { classes, signals, functions, variables, constants, exports, enums } = frame;
    assert(entries@.subrange(n as int, entries@.len() as int).map_values(
        |e: DocumentationEntry| entry_view(e),
    ) =~= entries_upto(f, 0));
    push_entry(entries, EntryType::CLASS, classes);
    assert(entries@.subrange(n as int, entries@.len() as int).map_values(
        |e: DocumentationEntry| entry_view(e),
    ) =~= entries_upto(f, 1));
    push_entry(entries, EntryType::ENUM, enums);
    assert(entries@.subrange(n as int, entries@.len() as int).map_values(
        |e: DocumentationEntry| entry_view(e),
    ) =~= entries_upto(f, 2));
    push_entry(entries, EntryType::SIGNAL, signals);
    assert(entries@.subrange(n as int, entries@.len() as int).map_values(
        |e: DocumentationEntry| entry_view(e),
    ) =~= entries_upto(f, 3));
    push_entry(entries, EntryType::EXPORT, exports);
    assert(entries@.subrange(n as int, entries@.len() as int).map_values(
        |e: DocumentationEntry| entry_view(e),
    ) =~= entries_upto(f, 4));
    push_entry(entries, EntryType::CONST, constants);
    assert(entries@.subrange(n as int, entries@.len() as int).map_values(
        |e: DocumentationEntry| entry_view(e),
    ) =~= entries_upto(f, 5));
    push_entry(entries, EntryType::FUNC, functions);
    assert(entries@.subrange(n as int, entries@.len() as int).map_values(
        |e: DocumentationEntry| entry_view(e),
    ) =~= entries_upto(f, 6));
    push_entry(entries, EntryType::VAR, variables);
    assert(entries@.subrange(n as int, entries@.len() as int).map_values(
        |e: DocumentationEntry| entry_view(e),
    ) =~= entries_upto(f, 7));
    assert forall|i: int| n <= i < entries@.len() implies entry_view(#[trigger] entries@[i])
        == frame_entries(f)[i - n] by {
        assert(entries@.subrange(n as int, entries@.len() as int).map_values(
            |e: DocumentationEntry| entry_view(e),
        )[i - n] == entry_view(entries@[i]));
    }
}

} // verus!
