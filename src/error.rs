//! Errors that stop the parse of a file.

use vstd::prelude::*;

verus! {

/// What went wrong.
#[derive(Debug, Clone, Copy, PartialEq, Eq, Structural)]
pub enum ErrorKind {
    /// A closing bracket does not match the innermost open one.
    BracketMismatch,
    /// A closing bracket with no open one.
    ExtraClosingBracket(char),
    /// The input ended while a line still asked for a continuation.
    UnterminatedContinuation,
    /// A block's first content line is not indented past its header.
    IndentationExpected,
    /// A declaration does not follow its grammar.
    InvalidSyntax,
}

/// An error, with the file and the 1-based line where it was found.
#[derive(Debug)]
pub struct ParseError {
    pub file: String,
    pub line: usize,
    pub kind: ErrorKind,
}

impl ParseError {
    pub open spec fn is_at(&self, file: Seq<char>, line: usize, kind: ErrorKind) -> bool {
        self.file@ == file && self.line == line && self.kind == kind
    }

    pub fn new(file: &str, line: usize, kind: ErrorKind) -> (r: ParseError)
        ensures
            r.is_at(file@, line, kind),
    {
        ParseError { file: String::from_str(file), line, kind }
    }
}

} // verus!
