//! Vertical and horizontal scroll targets.

use godot_vim::scroll::center_cursor_target;
use godot_vim::scroll::cursor_to_bottom_target;
use godot_vim::scroll::cursor_to_right_edge_target;
use godot_vim::scroll::nearest_visible_line;
use godot_vim::scroll::nearest_visible_line_at_or_above;
use godot_vim::scroll::saturating_add_i32;
use godot_vim::scroll::saturating_sub_i32;
use godot_vim::scroll::scroll_half_left_target;
use godot_vim::scroll::scroll_half_right_target;
use godot_vim::scroll::scroll_left_target;
use godot_vim::scroll::scroll_right_target;
use godot_vim::scroll::walk_back_step;
use godot_vim::scroll::walk_visible_lines_back;
use godot_vim::scroll::FoldQuery;
use godot_vim::scroll::down_visible_line;
use godot_vim::scroll::up_visible_line;
use godot_vim::scroll::is_folded;
use godot_vim::scroll::move_down_visible;
use godot_vim::scroll::move_up_visible;
use godot_vim::scroll::next_visible_line;

/// No folds: every line is visible.
struct NoFolds;

impl FoldQuery for NoFolds {
    fn visible_offset(&self, line: i32, visible_amount: i32) -> i32 {
        self.next_visible_line_offset_from(line, visible_amount)
    }

    fn next_visible_line_offset_from(&self, _line: i32, visible_amount: i32) -> i32 {
        visible_amount.abs()
    }
}

/// Lines `first..=last` are folded into `first - 1`.
struct Fold {
    first: i32,
    last: i32,
}

impl Fold {
    fn visible(&self, line: i32) -> bool {
        !(self.first <= line && line <= self.last)
    }
}

impl FoldQuery for Fold {
    fn visible_offset(&self, line: i32, visible_amount: i32) -> i32 {
        self.next_visible_line_offset_from(line, visible_amount)
    }

    // Counts the lines examined, the starting one included, until enough
    // visible lines were seen, as the editor widget does.
    fn next_visible_line_offset_from(&self, line: i32, visible_amount: i32) -> i32 {
        let mut seen = 0;
        let mut total = 0;
        let wanted = visible_amount.abs();
        let step = if visible_amount >= 0 { 1 } else { -1 };
        let mut i = line;
        while (0..100).contains(&i) {
            total += 1;
            if self.visible(i) {
                seen += 1;
            }
            if seen >= wanted {
                break;
            }
            i += step;
        }
        total
    }
}

#[test]
fn scroll_half_left() {
    // Scrolled 20 columns, half of an 80-wide screen: back to column 0.
    assert_eq!(scroll_half_left_target(20, 80, 1), 0);
}

#[test]
fn scroll_half_right() {
    assert_eq!(scroll_half_right_target(10, 80, 1), 50);
}

#[test]
fn half_screen_scroll_counts_and_minimum() {
    assert_eq!(scroll_half_right_target(0, 80, 3), 120);
    // A one-line viewport still moves by one column.
    assert_eq!(scroll_half_right_target(5, 1, 1), 6);
    assert_eq!(scroll_half_left_target(5, 0, 2), 3);
}

#[test]
fn horizontal_scroll_by_columns() {
    assert_eq!(scroll_left_target(10, 3), 7);
    assert_eq!(scroll_left_target(2, 3), 0);
    assert_eq!(scroll_left_target(2, u32::MAX), 0);
    assert_eq!(scroll_right_target(10, 3), 13);
    assert_eq!(scroll_right_target(i32::MAX - 1, 5), i32::MAX);
    assert_eq!(scroll_right_target(0, u32::MAX), i32::MAX);
}

#[test]
fn right_edge_target() {
    assert_eq!(cursor_to_right_edge_target(100, 40), 61);
    assert_eq!(cursor_to_right_edge_target(10, 40), 0);
}

#[test]
fn saturating_helpers() {
    assert_eq!(saturating_sub_i32(i32::MIN, 1), i32::MIN);
    assert_eq!(saturating_sub_i32(5, 7), -2);
    assert_eq!(saturating_add_i32(i32::MAX, 1), i32::MAX);
    assert_eq!(saturating_add_i32(-5, 7), 2);
}

#[test]
fn back_step_stalls_and_clamps() {
    assert_eq!(walk_back_step(10, 1), Some(9));
    assert_eq!(walk_back_step(10, 4), Some(6));
    assert_eq!(walk_back_step(2, 5), Some(0));
    assert_eq!(walk_back_step(0, 1), None);
    assert_eq!(walk_back_step(7, 0), None);
}

#[test]
fn walk_back_without_folds() {
    assert_eq!(walk_visible_lines_back(&NoFolds, 30, 10), 20);
    assert_eq!(walk_visible_lines_back(&NoFolds, 3, 10), 0);
    assert_eq!(walk_visible_lines_back(&NoFolds, 30, 0), 30);
}

#[test]
fn walk_back_over_a_fold() {
    // Lines 11..=20 folded under 10. From a visible line each step goes
    // one line back; from a hidden line it jumps to the line above the
    // visible one below the fold.
    let fold = Fold { first: 11, last: 20 };
    assert_eq!(walk_visible_lines_back(&fold, 25, 4), 21);
    assert_eq!(walk_visible_lines_back(&fold, 25, 5), 20);
    assert_eq!(walk_visible_lines_back(&fold, 21, 2), 9);
}

#[test]
fn nearest_visible_line_pure() {
    assert_eq!(nearest_visible_line(0, 1, 1), 0);
    assert_eq!(nearest_visible_line(-4, 1, 1), 0);
    assert_eq!(nearest_visible_line(12, 1, 1), 12);
    // Line 15 hidden, the visible line above is 3 lines back counting inclusively.
    assert_eq!(nearest_visible_line(15, 6, 6), 10);
}

#[test]
fn nearest_visible_line_with_fold() {
    let fold = Fold { first: 11, last: 20 };
    assert_eq!(nearest_visible_line_at_or_above(&fold, 25), 25);
    assert_eq!(nearest_visible_line_at_or_above(&fold, 15), 10);
    assert_eq!(nearest_visible_line_at_or_above(&NoFolds, 7), 7);
}

#[test]
fn center_and_bottom_targets() {
    assert_eq!(center_cursor_target(&NoFolds, 50, 20), 40);
    assert_eq!(center_cursor_target(&NoFolds, 5, 20), 0);
    assert_eq!(cursor_to_bottom_target(&NoFolds, 50, 20), 31);
    assert_eq!(cursor_to_bottom_target(&NoFolds, 50, 1), 50);
}

#[test]
fn visible_line_steps() {
    assert_eq!(up_visible_line(10, 1), 9);
    assert_eq!(up_visible_line(10, 11), 0);
    assert_eq!(up_visible_line(0, 1), 0);
    assert_eq!(down_visible_line(5, 99, 1), 6);
    assert_eq!(down_visible_line(5, 7, 10), 7);
    assert_eq!(down_visible_line(9, 7, 1), 7);
}

#[test]
fn fold_aware_moves() {
    let fold = Fold { first: 11, last: 20 };
    assert!(is_folded(&fold, 15, 100));
    assert!(!is_folded(&fold, 10, 100));
    assert!(!is_folded(&fold, 150, 100));
    // Down from 10: the next visible line is 21.
    assert_eq!(move_down_visible(&fold, 10, 100), 21);
    // Up from 21: the line just above is 20 (hidden); back to 10.
    assert_eq!(move_up_visible(&fold, 21), 10);
    assert_eq!(move_down_visible(&NoFolds, 99, 100), 99);
    assert_eq!(next_visible_line(&fold, 15, true, 100), 21);
    assert_eq!(next_visible_line(&fold, 15, false, 100), 10);
    assert_eq!(next_visible_line(&fold, 25, false, 100), 25);
}
