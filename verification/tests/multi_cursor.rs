//! Multi-cursor caret and selection placement.

use godot_vim::codec::DocumentView;
use godot_vim::codec::LineIndex;
use godot_vim::cursor::SelectionShape;
use godot_vim::multi_cursor::multi_cursor_sync_plan;
use godot_vim::multi_cursor::needs_caret_import;
use godot_vim::multi_cursor::single_cursor_restore;
use godot_vim::types::CharLineCol;

#[test]
fn carets_for_each_cursor() {
    let text = "foo bar\nbaz foo";
    let idx = LineIndex::new(text);
    let doc = DocumentView::new(text, &idx);
    let plan = multi_cursor_sync_plan(&doc, &vec![(0, 0), (12, 12)], None);
    assert_eq!(plan.positions, vec![(0, 0, 0), (1, 4, 12)]);
    assert!(plan.selections.is_none());
    assert_eq!(plan.primary_line, Some(0));
}

#[test]
fn visual_selections_for_each_cursor() {
    let text = "foo bar\nbaz foo";
    let idx = LineIndex::new(text);
    let doc = DocumentView::new(text, &idx);
    // Two char-wise selections of "foo".
    let plan = multi_cursor_sync_plan(&doc, &vec![(0, 2), (12, 14)], Some(SelectionShape::Char));
    assert_eq!(plan.selections, Some(vec![(0, 0, 0, 3), (1, 4, 1, 7)]));
    let plan = multi_cursor_sync_plan(&doc, &vec![(2, 0)], Some(SelectionShape::Line));
    assert_eq!(plan.selections, Some(vec![(0, 0, 0, 7)]));
}

#[test]
fn no_cursors_no_primary() {
    let text = "x";
    let idx = LineIndex::new(text);
    let doc = DocumentView::new(text, &idx);
    let plan = multi_cursor_sync_plan(&doc, &Vec::new(), Some(SelectionShape::Block));
    assert!(plan.positions.is_empty());
    assert_eq!(plan.selections, Some(Vec::new()));
    assert_eq!(plan.primary_line, None);
}

#[test]
fn restore_after_multi_cursor() {
    let text = "ab\ncd";
    let idx = LineIndex::new(text);
    let doc = DocumentView::new(text, &idx);
    assert_eq!(single_cursor_restore(true, &doc, 4), Some(CharLineCol::new(1, 1)));
    assert_eq!(single_cursor_restore(false, &doc, 4), None);
    assert!(needs_caret_import(2, 1));
    assert!(!needs_caret_import(1, 1));
}
