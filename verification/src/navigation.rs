//! Symbol navigation (`gd`, `K`): the identifier under the caret, by
//! Unicode word boundaries (alphanumeric characters and `_`), and the
//! request the editor is to carry out for it.

use crate::codec::{clamp_nonneg, i32_to_usize};
use crate::strs::{class_has, rspan, rspan_start, span, span_end, word_char, CharClass};
use crate::text::chars_of;
use vstd::prelude::*;
use vstd::string::StrSliceExecFns;

verus! {

broadcast use vstd::seq::group_seq_axioms;

/// Whether `c` is a word character (alphanumeric or `_`).
pub fn is_word_char(c: char) -> (r: bool)
    ensures
        r == word_char(c),
{
    class_has(c, CharClass::Word)
}

/// The word of `s` around character `col`: the maximal run of word
/// characters containing it, when the character at `col` is one.
pub open spec fn word_at(s: Seq<char>, col: int) -> Option<Seq<char>> {
    if 0 <= col < s.len() && word_char(s[col]) {
        let start = col - rspan(s.take(col), CharClass::Word);
        let end = col + 1 + span(s.skip(col + 1), CharClass::Word);
        Some(s.subrange(start, end))
    } else {
        None
    }
}

/// The identifier at character `col` of `line_text`, if there is one.
pub fn extract_word_at_col(line_text: &str, col: usize) -> (r: Option<&str>)
    ensures
        r.is_none() <==> word_at(line_text@, col as int).is_none(),
        r matches Some(w) ==> w@ == word_at(line_text@, col as int)->0,
{
    let v = chars_of(line_text);
    if col >= v.len() {
        return None;
    }
    if !is_word_char(v[col]) {
        return None;
    }
    let start = rspan_start(&v, col, CharClass::Word);
    let end = span_end(&v, col + 1, CharClass::Word);
    proof {
        assert(v@.take(col as int) == line_text@.take(col as int));
        assert(v@.skip(col + 1) == line_text@.skip(col + 1));
    }
    Some(line_text.substring_char(start, end))
}

/// A symbol lookup the editor is asked to perform.
#[derive(Debug, Clone, PartialEq, Eq)]
pub struct WordAt {
    pub word: String,
    pub line: i32,
    pub col: i32,
}

/// The word under the caret at `(line, col)` of a line reading
/// `line_text`, with the caret position, when there is one.
pub fn with_word_under_cursor(line_text: &str, line: i32, col: i32) -> (r: Option<WordAt>)
    ensures
        r.is_none() <==> word_at(line_text@, clamp_nonneg(col)).is_none(),
        r matches Some(w) ==> w.word@ == word_at(line_text@, clamp_nonneg(col))->0 && w.line == line
            && w.col == col,
{
    match extract_word_at_col(line_text, i32_to_usize(col)) {
        Some(word) => Some(WordAt { word: word.to_owned(), line, col }),
        None => None,
    }
}

/// What a navigation command asks of the editor.
#[derive(Debug, Clone, PartialEq, Eq)]
pub enum NavigationRequest {
    /// Emit the editor's symbol lookup for the word (`gd`).
    SymbolLookup(WordAt),
    /// Show the documentation tooltip for the word (`K`).
    ShowDocumentation(WordAt),
}

/// `gd`: look up the symbol under the caret, when there is one.
pub fn handle_goto_definition(line_text: &str, line: i32, col: i32) -> (r: Option<NavigationRequest>)
    ensures
        r.is_none() <==> word_at(line_text@, clamp_nonneg(col)).is_none(),
        r matches Some(q) ==> q matches NavigationRequest::SymbolLookup(w) && w.word@ == word_at(
            line_text@,
            clamp_nonneg(col),
        )->0 && w.line == line && w.col == col,
{
    match with_word_under_cursor(line_text, line, col) {
        Some(w) => Some(NavigationRequest::SymbolLookup(w)),
        None => None,
    }
}

/// `K`: show the documentation of the symbol under the caret, when there
/// is one.
pub fn handle_show_documentation(line_text: &str, line: i32, col: i32) -> (r: Option<
    NavigationRequest,
>)
    ensures
        r.is_none() <==> word_at(line_text@, clamp_nonneg(col)).is_none(),
        r matches Some(q) ==> q matches NavigationRequest::ShowDocumentation(w) && w.word@
            == word_at(line_text@, clamp_nonneg(col))->0 && w.line == line && w.col == col,
{
    match with_word_under_cursor(line_text, line, col) {
        Some(w) => Some(NavigationRequest::ShowDocumentation(w)),
        None => None,
    }
}

/// The word found contains the caret character and is made of word
/// characters only, with no word character right before or after it.
pub proof fn lemma_word_is_maximal(s: Seq<char>, col: int)
    requires
        word_at(s, col).is_some(),
    ensures
        ({
            let start = col - rspan(s.take(col), CharClass::Word);
            let end = col + 1 + span(s.skip(col + 1), CharClass::Word);
            &&& 0 <= start <= col < end <= s.len()
            &&& forall|i: int| start <= i < end ==> word_char(#[trigger] s[i])
            &&& start > 0 ==> !word_char(s[start - 1])
            &&& end < s.len() ==> !word_char(s[end])
        }),
{
    let a = s.take(col);
    let b = s.skip(col + 1);
    crate::strs::lemma_rspan(a, CharClass::Word);
    crate::strs::lemma_span(b, CharClass::Word);
    let start = col - rspan(a, CharClass::Word);
    let end = col + 1 + span(b, CharClass::Word);
    assert forall|i: int| start <= i < end implies word_char(#[trigger] s[i]) by {
        if i < col {
            assert(a[i] == s[i]);
        } else if i > col {
            assert(b[i - col - 1] == s[i]);
        }
    }
    if start > 0 {
        assert(a[a.len() - 1 - rspan(a, CharClass::Word)] == s[start - 1]);
    }
    if end < s.len() {
        assert(b[span(b, CharClass::Word) as int] == s[end]);
    }
}

} // verus!
