//! A read-only document over a borrowed text and its line index: byte
//! offsets to `(line, grapheme column)` positions and back.

use crate::codec::{
    char_index_at_byte, clamp_nonneg, line_chars, line_of_char, min_int, sat_i32, LineIndex,
};
use crate::graphemes::grapheme_clusters;
use crate::lines::starts_of;
use crate::strs::str_equal;
use crate::text::{byte_at, byte_len};
use vstd::prelude::*;
use vstd::string::StringSliceAdditionalSpecFns;
use vstd::utf8::{encode_utf8, is_char_boundary};

verus! {

/// A byte offset into a document.
#[derive(Debug, Clone, Copy, PartialEq, Eq, Structural)]
pub struct Offset(pub usize);

impl Offset {
    pub fn new(n: usize) -> (r: Self)
        ensures
            r.0 == n,
    {
        Offset(n)
    }

    pub fn get(self) -> (r: usize)
        ensures
            r == self.0,
    {
        self.0
    }
}

/// A line index (0-based).
#[derive(Debug, Clone, Copy, PartialEq, Eq, Structural)]
pub struct Line(pub usize);

impl Line {
    pub fn get(self) -> (r: usize)
        ensures
            r == self.0,
    {
        self.0
    }
}

/// A grapheme column (0-based).
#[derive(Debug, Clone, Copy, PartialEq, Eq, Structural)]
pub struct Column(pub usize);

impl Column {
    pub fn get(self) -> (r: usize)
        ensures
            r == self.0,
    {
        self.0
    }
}

/// A `(line, grapheme column)` position.
#[derive(Debug, Clone, Copy, PartialEq, Eq, Structural)]
pub struct Position {
    pub line: usize,
    pub col: usize,
}

impl Position {
    pub fn from_raw(line: usize, col: usize) -> (r: Self)
        ensures
            r.line == line,
            r.col == col,
    {
        Position { line, col }
    }

    pub fn line(&self) -> (r: Line)
        ensures
            r.0 == self.line,
    {
        Line(self.line)
    }

    pub fn col(&self) -> (r: Column)
        ensures
            r.0 == self.col,
    {
        Column(self.col)
    }
}

/// A document: a borrowed text with the index of its lines.
#[derive(Debug)]
pub struct GodotDocument<'a> {
    text: &'a str,
    line_index: LineIndex,
}

/// Position of byte `offset` of `cs`, when the offset is a character
/// boundary within the text: the line, and the number of grapheme clusters
/// from the line start to the offset (each saturated to `i32` range).
pub open spec fn offset_pos_spec(cs: Seq<char>, offset: int) -> Option<(int, int)> {
    if offset > byte_len(cs) || !is_char_boundary(encode_utf8(cs), offset) {
        None
    } else {
        let k = char_index_at_byte(cs, offset);
        Some(
            (
                clamp_nonneg(sat_i32(line_of_char(cs, k))),
                clamp_nonneg(
                    sat_i32(
                        grapheme_clusters(cs.subrange(starts_of(cs.take(k), '\n').last(), k)).len() as int,
                    ),
                ),
            ),
        )
    }
}

/// Byte offset of `(line, grapheme column)` of `cs`, the column clamped to
/// the end of the line; `None` for a line that does not exist.
pub open spec fn pos_offset_spec(cs: Seq<char>, line: int, col: int) -> Option<int> {
    if line >= starts_of(cs, '\n').len() {
        None
    } else {
        let gs = grapheme_clusters(line_chars(cs, line));
        let m = min_int(col, gs.len() as int);
        Some(byte_at(cs, starts_of(cs, '\n')[line] + gs.take(m).flatten().len()))
    }
}

impl<'a> GodotDocument<'a> {
    #[verifier::type_invariant]
    spec fn inv(&self) -> bool {
        self.line_index.describes(self.text.spec_bytes())
    }

    /// The text.
    pub closed spec fn text_spec(&self) -> &'a str {
        self.text
    }

    /// The index of `text`.
    pub fn new(text: &'a str) -> (r: Self)
        ensures
            r.text_spec() == text,
    {
        GodotDocument { text, line_index: LineIndex::new(text) }
    }

    pub fn text(&self) -> (r: &str)
        ensures
            r == self.text_spec(),
    {
        self.text
    }

    pub fn line_index(&self) -> (r: &LineIndex)
        ensures
            r.describes(self.text_spec().spec_bytes()),
    {
        proof {
            use_type_invariant(self);
        }
        &self.line_index
    }

    /// Give up the text and keep its index.
    pub fn into_line_index(self) -> (r: LineIndex)
        ensures
            r.describes(self.text_spec().spec_bytes()),
    {
        proof {
            use_type_invariant(&self);
        }
        self.line_index
    }

    /// Number of lines (one more than the number of newlines).
    pub fn line_count(&self) -> (r: usize)
        ensures
            r == starts_of(self.text_spec().spec_bytes(), 10u8).len(),
    {
        proof {
            use_type_invariant(self);
        }
        self.line_index.line_count()
    }

    /// Byte length of the text.
    pub fn len(&self) -> (r: usize)
        ensures
            r == self.text_spec().spec_bytes().len(),
    {
        self.text.as_bytes().len()
    }

    /// Whether the text is empty.
    pub fn is_empty(&self) -> (r: bool)
        ensures
            r == (self.text_spec()@.len() == 0),
    {
        self.text.is_empty()
    }

    /// Position of a byte offset; `None` past the end or inside a character.
    pub fn offset_to_pos(&self, offset: Offset) -> (r: Option<Position>)
        ensures
            r.is_none() <==> offset_pos_spec(self.text_spec()@, offset.0 as int).is_none(),
            r matches Some(p) ==> (p.line as int, p.col as int) == offset_pos_spec(
                self.text_spec()@,
                offset.0 as int,
            )->0,
    {
        proof {
            use_type_invariant(self);
        }
        match self.line_index.offset_to_line_col(self.text, offset.get()) {
            Some(lc) => Some(
                Position::from_raw(
                    crate::codec::i32_to_usize(lc.line),
                    crate::codec::i32_to_usize(lc.col),
                ),
            ),
            None => None,
        }
    }

    /// Byte offset of a position; the column clamps to the end of the line,
    /// and a line that does not exist gives `None`.
    pub fn pos_to_offset(&self, pos: Position) -> (r: Option<Offset>)
        ensures
            r.is_none() <==> pos_offset_spec(self.text_spec()@, pos.line as int, pos.col as int).is_none(),
            r matches Some(o) ==> o.0 as int == pos_offset_spec(
                self.text_spec()@,
                pos.line as int,
                pos.col as int,
            )->0,
    {
        proof {
            use_type_invariant(self);
            crate::codec::lemma_char_lines(self.text@);
        }
        match self.line_index.line_col_to_offset(self.text, pos.line().get(), pos.col().get()) {
            Some(o) => Some(Offset::new(o)),
            None => None,
        }
    }
}

impl<'a> PartialEq for GodotDocument<'a> {
    fn eq(&self, other: &Self) -> (r: bool) {
        str_equal(self.text, other.text)
    }
}

impl<'a> vstd::std_specs::cmp::PartialEqSpecImpl for GodotDocument<'a> {
    open spec fn obeys_eq_spec() -> bool {
        true
    }

    open spec fn eq_spec(&self, other: &Self) -> bool {
        self.text_spec()@ == other.text_spec()@
    }
}

} // verus!
