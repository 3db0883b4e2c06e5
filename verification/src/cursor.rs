//! Caret and selection placement: where the editor's selection goes for a
//! Vim visual selection, and how the viewport follows the caret.
//!
//! Vim's visual selection includes both ends; the editor's selection is
//! `[from, to)` with the caret at `to`. Character mode therefore extends the
//! exclusive end by one column (clamped to the line), and block mode shows
//! the head line's part of the block.

use crate::codec::byte_to_line_col_spec;
use crate::codec::char_index_at_byte;
use crate::codec::min_int;
use crate::codec::clamp_nonneg;
use crate::codec::line_chars;
use crate::codec::sat_i32;
use crate::codec::DocumentView;
use crate::codec::i32_to_usize;
use crate::codec::lemma_char_lines;
use crate::codec::lemma_position_nonneg;
use crate::codec::lemma_position_on_line;
use crate::codec::usize_to_i32;
use crate::lines::lemma_starts_shape;
use crate::lines::starts_of;
use crate::text::byte_len;
use crate::text::lemma_chars_within;
use crate::types::CharLineCol;
use vstd::prelude::*;

verus! {

/// How a visual selection extends: by characters, whole lines, or a block.
#[derive(Clone, Copy, Debug, PartialEq, Eq, Structural, Hash)]
pub enum SelectionShape {
    Char,
    Line,
    Block,
}

/// The selection shapes that selection placement handles: all of them.
pub fn handled_selection_shapes() -> (r: Vec<SelectionShape>)
    ensures
        r@ == seq![SelectionShape::Char, SelectionShape::Line, SelectionShape::Block],
{
    vec![SelectionShape::Char, SelectionShape::Line, SelectionShape::Block]
}

pub open spec fn min_i(a: int, b: int) -> int {
    if a <= b {
        a
    } else {
        b
    }
}

pub open spec fn max_i(a: int, b: int) -> int {
    if a >= b {
        a
    } else {
        b
    }
}

/// Rust's `/ 2` on an `i32` (rounding toward zero).
pub open spec fn half_toward_zero(x: int) -> int {
    if x >= 0 {
        x / 2
    } else {
        -((-x) / 2)
    }
}

// ---------------------------------------------------------------------------
// Scrolloff
// ---------------------------------------------------------------------------

/// Whether the scrolloff computation stays within `i32`.
pub open spec fn scrolloff_in_range(cursor_line: int, scrolloff: int, first: int, count: int) -> bool {
    let fits = |v: int| i32::MIN <= v <= i32::MAX;
    scrolloff <= 0 || {
        &&& fits(scrolloff * 2)
        &&& fits(cursor_line - half_toward_zero(count))
        &&& fits(first + scrolloff)
        &&& fits(first + count)
        &&& fits(first + count - 1)
        &&& fits(first + count - 1 - scrolloff)
        &&& fits(cursor_line - scrolloff)
        &&& fits(cursor_line - count)
        &&& fits(cursor_line - count + 1)
        &&& fits(cursor_line - count + 1 + scrolloff)
    }
}

/// The first visible line to scroll to so that the cursor keeps `scrolloff`
/// lines of context above and below (Vim's `scrolloff`), or `None` where the
/// viewport may stay. A viewport too small for both margins is centred on
/// the cursor instead. The top never goes above line 0.
pub open spec fn scrolloff_target(cursor_line: int, scrolloff: int, first: int, count: int) -> Option<int> {
    if scrolloff <= 0 {
        None
    } else if count <= scrolloff * 2 {
        let target = max_i(cursor_line - half_toward_zero(count), 0);
        if first != target {
            Some(target)
        } else {
            None
        }
    } else if cursor_line < first + scrolloff {
        Some(max_i(cursor_line - scrolloff, 0))
    } else if cursor_line > first + count - 1 - scrolloff {
        Some(cursor_line - count + 1 + scrolloff)
    } else {
        None
    }
}

/// The scroll that enforces `scrolloff` around `cursor_line`, given the
/// viewport's first visible line and visible line count.
pub fn scrolloff_scroll_target(cursor_line: i32, scrolloff: i32, first_visible: i32, visible_count: i32) -> (r: Option<i32>)
    requires
        scrolloff_in_range(cursor_line as int, scrolloff as int, first_visible as int, visible_count as int),
    ensures
        r matches Some(t) ==> scrolloff_target(cursor_line as int, scrolloff as int, first_visible as int, visible_count as int) == Some(t as int),
        r is None ==> scrolloff_target(cursor_line as int, scrolloff as int, first_visible as int, visible_count as int) is None,
{
    if scrolloff <= 0 {
        return None;
    }
    if visible_count <= scrolloff * 2 {
        let half = if visible_count >= 0 {
            visible_count / 2
        } else {
            (-((-(visible_count as i64)) / 2)) as i32
        };
        let center = cursor_line - half;
        let target = if center > 0 {
            center
        } else {
            0
        };
        if first_visible != target {
            return Some(target);
        }
        return None;
    }
    let top_margin = first_visible + scrolloff;
    let bot_margin = first_visible + visible_count - 1 - scrolloff;
    if cursor_line < top_margin {
        let t = cursor_line - scrolloff;
        Some(
            if t > 0 {
                t
            } else {
                0
            },
        )
    } else if cursor_line > bot_margin {
        Some(cursor_line - visible_count + 1 + scrolloff)
    } else {
        None
    }
}

/// After the scroll, a cursor at least `scrolloff` lines into the document
/// has `scrolloff` lines of context on both sides, whenever the viewport is
/// large enough for both margins.
pub proof fn lemma_scrolloff_restores_margins(cursor_line: int, scrolloff: int, first: int, count: int)
    requires
        scrolloff > 0,
        count > scrolloff * 2,
        cursor_line >= scrolloff,
    ensures
        ({
            let top = match scrolloff_target(cursor_line, scrolloff, first, count) {
                Some(t) => t,
                None => first,
            };
            top + scrolloff <= cursor_line <= top + count - 1 - scrolloff
        }),
{
}

/// A cursor already inside the margins causes no scroll.
pub proof fn lemma_scrolloff_idle_inside_margins(cursor_line: int, scrolloff: int, first: int, count: int)
    requires
        count > scrolloff * 2,
        first + scrolloff <= cursor_line <= first + count - 1 - scrolloff,
    ensures
        scrolloff_target(cursor_line, scrolloff, first, count) is None,
{
}

// ---------------------------------------------------------------------------
// Selection placement
// ---------------------------------------------------------------------------

/// Number of characters of line `l` (0 past the last line), as an `i32`.
pub open spec fn line_len_i32(cs: Seq<char>, l: i32) -> int {
    let k = clamp_nonneg(l);
    if k < starts_of(cs, '\n').len() {
        sat_i32(line_chars(cs, k).len() as int) as int
    } else {
        0
    }
}

/// The editor selection `(from, to)` for the inclusive Vim selection from
/// byte `anchor` to byte `head`, the caret going to `to`:
/// - characters: the exclusive end one column past the later end, clamped
///   to its line;
/// - lines: whole lines from the upper to the lower, reversed when the head
///   is above the anchor so that the caret follows the head;
/// - block: the head line's columns of the block, from the head's side.
pub open spec fn selection_range(cs: Seq<char>, anchor: int, head: int, shape: SelectionShape) -> (
    CharLineCol,
    CharLineCol,
) {
    let (al, ac) = byte_to_line_col_spec(cs, anchor);
    let (hl, hc) = byte_to_line_col_spec(cs, head);
    match shape {
        SelectionShape::Char => {
            if head >= anchor {
                (
                    CharLineCol { line: al, col: ac },
                    CharLineCol { line: hl, col: min_i(hc + 1, line_len_i32(cs, hl)) as i32 },
                )
            } else {
                (
                    CharLineCol { line: al, col: min_i(ac + 1, line_len_i32(cs, al)) as i32 },
                    CharLineCol { line: hl, col: hc },
                )
            }
        },
        SelectionShape::Line => {
            let top = min_i(al as int, hl as int) as i32;
            let bot = max_i(al as int, hl as int) as i32;
            let bot_end = line_len_i32(cs, bot) as i32;
            if hl >= al {
                (CharLineCol { line: top, col: 0 }, CharLineCol { line: bot, col: bot_end })
            } else {
                (CharLineCol { line: bot, col: bot_end }, CharLineCol { line: top, col: 0 })
            }
        },
        SelectionShape::Block => {
            let min_col = min_i(ac as int, hc as int);
            let max_col = max_i(ac as int, hc as int);
            let end = min_i(max_col + 1, line_len_i32(cs, hl)) as i32;
            if hc <= ac {
                (CharLineCol { line: hl, col: end }, CharLineCol { line: hl, col: min_col as i32 })
            } else {
                (CharLineCol { line: hl, col: min_col as i32 }, CharLineCol { line: hl, col: end })
            }
        },
    }
}

fn line_len(doc: &DocumentView, line: i32) -> (r: i32)
    requires
        doc.wf(),
    ensures
        r == line_len_i32(doc.text@, line),
{
    proof {
        lemma_char_lines(doc.text@);
    }
    usize_to_i32(doc.line_index.line_char_count(doc.text, i32_to_usize(line)))
}

/// The column one past which the selection's exclusive end is taken is
/// below `i32::MAX`: the head's for a forward character selection, the
/// anchor's for a backward one, the larger for a block. Line selections
/// need nothing.
pub open spec fn selection_fits(cs: Seq<char>, anchor: int, head: int, shape: SelectionShape) -> bool {
    let ac = byte_to_line_col_spec(cs, anchor).1 as int;
    let hc = byte_to_line_col_spec(cs, head).1 as int;
    match shape {
        SelectionShape::Char => if head >= anchor {
            hc < i32::MAX
        } else {
            ac < i32::MAX
        },
        SelectionShape::Line => true,
        SelectionShape::Block => max_i(ac, hc) < i32::MAX,
    }
}

/// The editor selection for a visual selection (see [`selection_range`]).
pub fn selection_for(doc: &DocumentView, anchor: usize, head: usize, shape: SelectionShape) -> (r: (
    CharLineCol,
    CharLineCol,
))
    requires
        doc.wf(),
        selection_fits(doc.text@, anchor as int, head as int, shape),
    ensures
        r == selection_range(doc.text@, anchor as int, head as int, shape),
{
    let a = doc.line_index.byte_to_line_col(doc.text, anchor);
    let h = doc.line_index.byte_to_line_col(doc.text, head);
    proof {
        lemma_position_nonneg(doc.text@, anchor as int);
        lemma_position_nonneg(doc.text@, head as int);
    }
    match shape {
        SelectionShape::Char => {
            if head >= anchor {
                let len = line_len(doc, h.line);
                let c = if h.col + 1 < len {
                    h.col + 1
                } else {
                    len
                };
                (CharLineCol::new(a.line, a.col), CharLineCol::new(h.line, c))
            } else {
                let len = line_len(doc, a.line);
                let c = if a.col + 1 < len {
                    a.col + 1
                } else {
                    len
                };
                (CharLineCol::new(a.line, c), CharLineCol::new(h.line, h.col))
            }
        },
        SelectionShape::Line => {
            let top = if a.line <= h.line {
                a.line
            } else {
                h.line
            };
            let bot = if a.line >= h.line {
                a.line
            } else {
                h.line
            };
            let bot_end = line_len(doc, bot);
            if h.line >= a.line {
                (CharLineCol::new(top, 0), CharLineCol::new(bot, bot_end))
            } else {
                (CharLineCol::new(bot, bot_end), CharLineCol::new(top, 0))
            }
        },
        SelectionShape::Block => {
            let min_col = if a.col <= h.col {
                a.col
            } else {
                h.col
            };
            let max_col = if a.col >= h.col {
                a.col
            } else {
                h.col
            };
            let len = line_len(doc, h.line);
            let end = if max_col + 1 < len {
                max_col + 1
            } else {
                len
            };
            if h.col <= a.col {
                (CharLineCol::new(h.line, end), CharLineCol::new(h.line, min_col))
            } else {
                (CharLineCol::new(h.line, min_col), CharLineCol::new(h.line, end))
            }
        },
    }
}

/// Lines and columns of a text shorter than `i32::MAX` characters stay
/// below `i32::MAX`.
pub proof fn lemma_position_below_max(cs: Seq<char>, offset: int)
    requires
        cs.len() < i32::MAX,
        offset >= 0,
    ensures
        0 <= byte_to_line_col_spec(cs, offset).0 < i32::MAX,
        0 <= byte_to_line_col_spec(cs, offset).1 < i32::MAX,
{
    if cs.len() > 0 {
        let k = char_index_at_byte(cs, offset);
        lemma_chars_within(cs, min_int(offset, byte_len(cs) as int));
        let st = starts_of(cs.take(k), '\n');
        lemma_starts_shape(cs.take(k), '\n');
        crate::lines::lemma_starts_count_bound(st, k, st.len() - 1);
        assert(st.last() <= k);
    }
}

/// A character selection covers both end characters: the end the caret
/// goes to is one column past the later character, and the other end is at
/// the earlier character; the column past a character never goes beyond
/// the end of that character's own line.
pub proof fn lemma_char_selection_covers_ends(cs: Seq<char>, anchor: int, head: int)
    requires
        anchor >= 0,
        head >= 0,
        cs.len() < i32::MAX,
    ensures
        ({
            let (al, ac) = byte_to_line_col_spec(cs, anchor);
            let (hl, hc) = byte_to_line_col_spec(cs, head);
            let (from, to) = selection_range(cs, anchor, head, SelectionShape::Char);
            &&& head >= anchor ==> {
                &&& from == CharLineCol { line: al, col: ac }
                &&& to.line == hl
                &&& to.col == min_int(hc + 1, line_chars(cs, hl as int).len() as int)
            }
            &&& head < anchor ==> {
                &&& to == CharLineCol { line: hl, col: hc }
                &&& from.line == al
                &&& from.col == min_int(ac + 1, line_chars(cs, al as int).len() as int)
            }
        }),
{
    lemma_position_on_line(cs, anchor);
    lemma_position_on_line(cs, head);
    let (al, ac) = byte_to_line_col_spec(cs, anchor);
    let (hl, hc) = byte_to_line_col_spec(cs, head);
    lemma_char_lines(cs);
    assert(line_chars(cs, al as int).len() <= cs.len());
    assert(line_chars(cs, hl as int).len() <= cs.len());
}

/// A line selection covers whole lines: from column 0 of the upper line to
/// the end of the lower one, the caret going to the head's side.
pub proof fn lemma_line_selection_covers_lines(cs: Seq<char>, anchor: int, head: int)
    requires
        anchor >= 0,
        head >= 0,
        cs.len() < i32::MAX,
    ensures
        ({
            let al = byte_to_line_col_spec(cs, anchor).0;
            let hl = byte_to_line_col_spec(cs, head).0;
            let top = if al <= hl { al } else { hl };
            let bot = if al <= hl { hl } else { al };
            let (from, to) = selection_range(cs, anchor, head, SelectionShape::Line);
            let upper = CharLineCol { line: top, col: 0 };
            let lower = CharLineCol { line: bot, col: line_chars(cs, bot as int).len() as i32 };
            &&& hl >= al ==> from == upper && to == lower
            &&& hl < al ==> from == lower && to == upper
        }),
{
    lemma_position_on_line(cs, anchor);
    lemma_position_on_line(cs, head);
    lemma_char_lines(cs);
    let al = byte_to_line_col_spec(cs, anchor).0;
    let hl = byte_to_line_col_spec(cs, head).0;
    assert(line_chars(cs, al as int).len() <= cs.len());
    assert(line_chars(cs, hl as int).len() <= cs.len());
}

/// Every coordinate of a placed selection is non-negative.
pub proof fn lemma_selection_nonneg(cs: Seq<char>, anchor: int, head: int, shape: SelectionShape)
    requires
        anchor >= 0,
        head >= 0,
    ensures
        selection_range(cs, anchor, head, shape).0.line >= 0,
        selection_range(cs, anchor, head, shape).0.col >= 0,
        selection_range(cs, anchor, head, shape).1.line >= 0,
        selection_range(cs, anchor, head, shape).1.col >= 0,
{
    lemma_position_nonneg(cs, anchor);
    lemma_position_nonneg(cs, head);
    lemma_char_lines(cs);
}

/// How the viewport follows the head after a selection is placed.
#[derive(Clone, Copy, Debug, PartialEq, Eq, Structural)]
pub enum HeadFollow {
    /// The caret is at the head: let the editor bring it into view.
    AdjustToCaret,
    /// Scroll so that this line is the first visible one.
    ScrollTo(i32),
    /// The head line is already visible.
    Stay,
}

/// In character mode the editor's caret is the head, so the editor scrolls
/// to it. In line and block mode the caret sits at a selection boundary, so
/// a head line outside the viewport is centred by hand (top clamped to 0).
pub open spec fn head_follow_spec(shape: SelectionShape, head_line: int, first: int, count: int) -> HeadFollow {
    if shape is Char {
        HeadFollow::AdjustToCaret
    } else if head_line < first || head_line >= first + count {
        HeadFollow::ScrollTo(
            max_i(
                if head_line - half_toward_zero(count) < i32::MIN {
                    i32::MIN as int
                } else if head_line - half_toward_zero(count) > i32::MAX {
                    i32::MAX as int
                } else {
                    head_line - half_toward_zero(count)
                },
                0,
            ) as i32,
        )
    } else {
        HeadFollow::Stay
    }
}

/// The viewport move after placing a selection whose head is on `head_line`.
pub fn head_follow(shape: SelectionShape, head_line: i32, first_visible: i32, visible_count: i32) -> (r: HeadFollow)
    requires
        i32::MIN <= first_visible + visible_count <= i32::MAX,
    ensures
        r == head_follow_spec(shape, head_line as int, first_visible as int, visible_count as int),
{
    if let SelectionShape::Char = shape {
        return HeadFollow::AdjustToCaret;
    }
    if head_line < first_visible || head_line >= first_visible + visible_count {
        let half: i64 = if visible_count >= 0 {
            (visible_count / 2) as i64
        } else {
            -((-(visible_count as i64)) / 2)
        };
        let d: i64 = head_line as i64 - half;
        let sat: i32 = if d < i32::MIN as i64 {
            i32::MIN
        } else if d > i32::MAX as i64 {
            i32::MAX
        } else {
            d as i32
        };
        HeadFollow::ScrollTo(
            if sat > 0 {
                sat
            } else {
                0
            },
        )
    } else {
        HeadFollow::Stay
    }
}

} // verus!
