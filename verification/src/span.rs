use vstd::prelude::*;

verus! {

/// A zero-based line and column in a source file.
#[derive(Debug, Clone, Copy, PartialEq, Eq, Structural)]
pub struct Position {
    pub line: usize,
    pub column: usize,
}

/// A range in a source file, from `start` to `end`.
#[derive(Debug, Clone, Copy, PartialEq, Eq, Structural)]
pub struct Span {
    pub start: Position,
    pub end: Position,
}

impl Span {
    /// The span that points at the very start of a file.
    pub open spec fn spec_file_start() -> Span {
        Span { start: Position { line: 0, column: 0 }, end: Position { line: 0, column: 0 } }
    }

    /// The span that points at the very start of a file.
    pub fn file_start() -> (s: Span)
        ensures
            s == Self::spec_file_start(),
    {
        Span { start: Position { line: 0, column: 0 }, end: Position { line: 0, column: 0 } }
    }
}

} // verus!
