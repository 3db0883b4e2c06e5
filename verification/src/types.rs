//! Small coordinate types shared by the bridge and effect layers.

use vstd::prelude::*;

verus! {

/// A position as the editor widget reports it: line and column, where the
/// column counts Unicode scalar values.
#[derive(Debug, Clone, Copy, PartialEq, Eq, Structural)]
pub struct CharLineCol {
    pub line: i32,
    pub col: i32,
}

impl CharLineCol {
    pub fn new(line: i32, col: i32) -> (r: Self)
        ensures
            r.line == line,
            r.col == col,
    {
        CharLineCol { line, col }
    }
}

/// A position whose column counts grapheme clusters (user-perceived
/// characters), as the engine's sticky column does.
#[derive(Debug, Clone, Copy, PartialEq, Eq, Structural)]
pub struct GraphemeLineCol {
    pub line: i32,
    pub col: i32,
}

impl GraphemeLineCol {
    pub fn new(line: i32, col: i32) -> (r: Self)
        ensures
            r.line == line,
            r.col == col,
    {
        GraphemeLineCol { line, col }
    }
}

/// A span of text between two editor positions.
#[derive(Debug, Clone, Copy, PartialEq, Eq, Structural)]
pub struct MatchRange {
    pub start: CharLineCol,
    pub end: CharLineCol,
}

impl MatchRange {
    pub fn new(start: CharLineCol, end: CharLineCol) -> (r: Self)
        ensures
            r.start == start,
            r.end == end,
    {
        MatchRange { start, end }
    }
}

} // verus!
