//! The documentation tree.

use vstd::prelude::*;

verus! {

/// The category of a group of symbols.
#[allow(non_camel_case_types)]
#[derive(Debug, Clone, Copy, PartialEq, Eq, Structural)]
pub enum EntryType {
    CLASS,
    SIGNAL,
    FUNC,
    VAR,
    CONST,
    EXPORT,
    ENUM,
}

/// One parameter of a function signature.
#[derive(Debug)]
pub struct FunctionArgument {
    pub name: String,
    pub value_type: Option<String>,
    pub default_value: Option<String>,
}

#[derive(Debug)]
pub struct FunctionArgStruct {
    pub arguments: Vec<FunctionArgument>,
    /// The arguments handed to the inherited constructor, for `_init`.
    pub super_arguments: Option<Vec<FunctionArgument>>,
    pub return_type: Option<String>,
}

#[derive(Debug)]
pub struct VariableArgStruct {
    pub value_type: Option<String>,
    pub assignment: Option<String>,
    pub setter: Option<String>,
    pub getter: Option<String>,
}

#[derive(Debug)]
pub struct ExportArgStruct {
    pub value_type: Option<String>,
    pub assignment: Option<String>,
    pub options: Vec<String>,
    pub setter: Option<String>,
    pub getter: Option<String>,
}

#[derive(Debug)]
pub struct EnumValue {
    pub name: String,
    pub value: isize,
    pub text: Vec<String>,
}

#[derive(Debug)]
pub enum SymbolArgs {
    FunctionArgs(FunctionArgStruct),
    VariableArgs(VariableArgStruct),
    ExportArgs(ExportArgStruct),
    EnumArgs(Vec<EnumValue>),
    ClassArgs(Vec<DocumentationEntry>),
}

/// One documented declaration with its doc comment.
#[derive(Debug)]
pub struct Symbol {
    pub name: String,
    pub args: Option<SymbolArgs>,
    pub text: Vec<String>,
}

#[derive(Debug)]
pub struct DocumentationEntry {
    pub entry_type: EntryType,
    pub symbols: Vec<Symbol>,
}

/// The documentation of one source file.
#[derive(Debug)]
pub struct DocumentationData {
    pub source_file: String,
    pub entries: Vec<DocumentationEntry>,
}

pub open spec fn opt_view(o: Option<String>) -> Option<Seq<char>> {
    match o {
        Some(s) => Some(s@),
        None => None,
    }
}

/// The texts held by a vector of strings.
pub open spec fn texts(v: Seq<String>) -> Seq<Seq<char>> {
    v.map_values(|s: String| s@)
}

} // verus!
