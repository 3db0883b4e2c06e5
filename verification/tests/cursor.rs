//! Selection placement, scrolloff and head following.

use std::collections::HashSet;

use godot_vim::codec::DocumentView;
use godot_vim::codec::LineIndex;
use godot_vim::cursor::handled_selection_shapes;
use godot_vim::cursor::head_follow;
use godot_vim::cursor::scrolloff_scroll_target;
use godot_vim::cursor::selection_for;
use godot_vim::cursor::HeadFollow;
use godot_vim::cursor::SelectionShape;
use godot_vim::types::CharLineCol;

#[test]
fn selection_shape_dispatch_covers_all_variants() {
    let handled: HashSet<_> = handled_selection_shapes().into_iter().collect();
    let all: HashSet<_> = [SelectionShape::Char, SelectionShape::Line, SelectionShape::Block]
        .into_iter()
        .collect();
    let missing: Vec<_> = all.difference(&handled).collect();
    assert!(missing.is_empty(), "Unhandled SelectionShape variants: {:?}", missing);
}

#[test]
fn handled_selection_shapes_has_no_duplicates() {
    let mut seen = HashSet::new();
    for kind in handled_selection_shapes() {
        assert!(seen.insert(kind), "Duplicate in HANDLED_SELECTION_SHAPES: {:?}", kind);
    }
}

fn select(text: &str, anchor: usize, head: usize, shape: SelectionShape) -> (CharLineCol, CharLineCol) {
    let idx = LineIndex::new(text);
    let doc = DocumentView::new(text, &idx);
    selection_for(&doc, anchor, head, shape)
}

#[test]
fn char_selection_forward_includes_head() {
    // "hello\nworld": anchor at 'e' (1), head at 'o' of world (7).
    let (from, to) = select("hello\nworld", 1, 7, SelectionShape::Char);
    assert_eq!(from, CharLineCol::new(0, 1));
    assert_eq!(to, CharLineCol::new(1, 2));
}

#[test]
fn char_selection_forward_clamps_to_line_end() {
    let (from, to) = select("abc", 0, 2, SelectionShape::Char);
    assert_eq!(from, CharLineCol::new(0, 0));
    assert_eq!(to, CharLineCol::new(0, 3));
    // Head on an empty line: the end stays at column 0.
    let (_, to) = select("a\n\nb", 0, 2, SelectionShape::Char);
    assert_eq!(to, CharLineCol::new(1, 0));
}

#[test]
fn char_selection_backward_extends_anchor() {
    let (from, to) = select("hello", 3, 1, SelectionShape::Char);
    assert_eq!(from, CharLineCol::new(0, 4));
    assert_eq!(to, CharLineCol::new(0, 1));
}

#[test]
fn line_selection_covers_whole_lines() {
    let text = "one\ntwo\nthree";
    let (from, to) = select(text, 1, 9, SelectionShape::Line);
    assert_eq!(from, CharLineCol::new(0, 0));
    assert_eq!(to, CharLineCol::new(2, 5));
    // Head above the anchor: reversed so the caret ends at the top.
    let (from, to) = select(text, 9, 1, SelectionShape::Line);
    assert_eq!(from, CharLineCol::new(2, 5));
    assert_eq!(to, CharLineCol::new(0, 0));
}

#[test]
fn block_selection_on_head_line() {
    let text = "abcdef\nabcdef";
    // anchor (0,1), head (1,4): head right of anchor.
    let (from, to) = select(text, 1, 11, SelectionShape::Block);
    assert_eq!(from, CharLineCol::new(1, 1));
    assert_eq!(to, CharLineCol::new(1, 5));
    // anchor (0,4), head (1,1): head left of anchor.
    let (from, to) = select(text, 4, 8, SelectionShape::Block);
    assert_eq!(from, CharLineCol::new(1, 5));
    assert_eq!(to, CharLineCol::new(1, 1));
}

#[test]
fn selection_with_multibyte_characters_counts_chars() {
    // "é" is two bytes; byte 2 is 'x' at column 1.
    let (from, to) = select("éxy", 0, 2, SelectionShape::Char);
    assert_eq!(from, CharLineCol::new(0, 0));
    assert_eq!(to, CharLineCol::new(0, 2));
}

#[test]
fn scrolloff_disabled_never_scrolls() {
    assert_eq!(scrolloff_scroll_target(0, 0, 10, 20), None);
    assert_eq!(scrolloff_scroll_target(100, -3, 10, 20), None);
}

#[test]
fn scrolloff_scrolls_up_near_top() {
    // Viewport 10..29, margin 5: cursor 12 is inside the top margin.
    assert_eq!(scrolloff_scroll_target(12, 5, 10, 20), Some(7));
    // Clamped at line 0.
    assert_eq!(scrolloff_scroll_target(2, 5, 1, 20), Some(0));
}

#[test]
fn scrolloff_scrolls_down_near_bottom() {
    // Bottom margin line is 10 + 20 - 1 - 5 = 24; cursor 27 needs top 27-20+1+5 = 13.
    assert_eq!(scrolloff_scroll_target(27, 5, 10, 20), Some(13));
}

#[test]
fn scrolloff_inside_margins_stays() {
    assert_eq!(scrolloff_scroll_target(15, 5, 10, 20), None);
    assert_eq!(scrolloff_scroll_target(24, 5, 10, 20), None);
}

#[test]
fn scrolloff_small_viewport_centres() {
    // 6 visible lines, margin 3: centre the cursor.
    assert_eq!(scrolloff_scroll_target(20, 3, 0, 6), Some(17));
    assert_eq!(scrolloff_scroll_target(20, 3, 17, 6), None);
    assert_eq!(scrolloff_scroll_target(1, 3, 5, 6), Some(0));
}

#[test]
fn head_follow_by_shape() {
    assert_eq!(head_follow(SelectionShape::Char, 500, 0, 20), HeadFollow::AdjustToCaret);
    assert_eq!(head_follow(SelectionShape::Line, 5, 0, 20), HeadFollow::Stay);
    assert_eq!(head_follow(SelectionShape::Line, 50, 0, 20), HeadFollow::ScrollTo(40));
    assert_eq!(head_follow(SelectionShape::Block, 3, 10, 20), HeadFollow::ScrollTo(0));
    assert_eq!(head_follow(SelectionShape::Block, 30, 10, 20), HeadFollow::ScrollTo(20));
}
