//! Viewport scrolling for the `z` commands and scroll effects: fold-aware
//! vertical targets and horizontal scroll amounts.

use crate::codec::u32_to_i32_sat;
use crate::codec::sat_i32;
use crate::cursor::half_toward_zero;
use crate::cursor::max_i;
use crate::cursor::min_i;
use vstd::prelude::*;

verus! {

/// The editor's answer to "how many document lines from `line` reach
/// `visible_amount` visible lines" (backwards for a negative amount); with
/// no folds it is `|visible_amount|`. An implementation answers as a
/// function of its fold state, which the library does not change while it
/// asks: `visible_offset` is that function, and every query returns it.
pub trait FoldQuery {
    /// The answer for `(line, visible_amount)` in the current fold state.
    spec fn visible_offset(&self, line: i32, visible_amount: i32) -> i32;

    fn next_visible_line_offset_from(&self, line: i32, visible_amount: i32) -> (r: i32)
        ensures
            r == self.visible_offset(line, visible_amount),
    ;
}

/// `v` clamped into `i32`.
pub open spec fn clamp_i32(v: int) -> int {
    if v < i32::MIN {
        i32::MIN as int
    } else if v > i32::MAX {
        i32::MAX as int
    } else {
        v
    }
}

fn clamp_to_i32(v: i64) -> (r: i32)
    ensures
        r == clamp_i32(v as int),
{
    if v < i32::MIN as i64 {
        i32::MIN
    } else if v > i32::MAX as i64 {
        i32::MAX
    } else {
        v as i32
    }
}

/// `a - b`, saturating at the bounds of `i32`.
pub fn saturating_sub_i32(a: i32, b: i32) -> (r: i32)
    ensures
        r == clamp_i32(a - b),
{
    clamp_to_i32(a as i64 - b as i64)
}

/// `a + b`, saturating at the bounds of `i32`.
pub fn saturating_add_i32(a: i32, b: i32) -> (r: i32)
    ensures
        r == clamp_i32(a + b),
{
    clamp_to_i32(a as i64 + b as i64)
}

// ---------------------------------------------------------------------------
// Vertical
// ---------------------------------------------------------------------------

/// The line `offset` document lines above `target`, not above line 0.
pub open spec fn back_step(target: int, offset: int) -> int {
    clamp_i32(max_i(target - offset, 0))
}

/// One step of a backward walk over visible lines: the next line, or `None`
/// when the step makes no progress (the walk stalls at a fold boundary or
/// at line 0).
pub fn walk_back_step(target: i32, offset: i32) -> (r: Option<i32>)
    ensures
        r == (if back_step(target as int, offset as int) == target as int {
            None::<i32>
        } else {
            Some(back_step(target as int, offset as int) as i32)
        }),
{
    let d = target as i64 - offset as i64;
    let prev = clamp_to_i32(if d > 0 {
        d
    } else {
        0
    });
    if prev == target {
        None
    } else {
        Some(prev)
    }
}

/// The line reached from `target` by at most `steps` back steps, each by
/// the editor's backward offset from the current line, stopping at the
/// first step that makes no progress.
pub open spec fn walk_back<Q: FoldQuery>(q: &Q, target: i32, steps: int) -> i32
    decreases steps,
{
    if steps <= 0 {
        target
    } else {
        let next = back_step(target as int, q.visible_offset(target, -1i32) as int);
        if next == target as int {
            target
        } else {
            walk_back(q, next as i32, steps - 1)
        }
    }
}

/// Walk `count` visible lines back from `start`, stopping early when a step
/// makes no progress. A walk of at least one step never ends above line 0.
pub fn walk_visible_lines_back<Q: FoldQuery>(q: &Q, start: i32, count: i32) -> (r: i32)
    ensures
        r == walk_back(q, start, count as int),
        count <= 0 ==> r == start,
        count > 0 ==> r >= 0,
{
    let mut target = start;
    let mut i: i32 = 0;
    while i < count
        invariant
            0 <= i <= count || (count <= 0 && i == 0),
            i == 0 ==> target == start,
            i > 0 ==> target >= 0,
            walk_back(q, start, count as int) == walk_back(q, target, count - i),
        decreases count - i,
    {
        let offset = q.next_visible_line_offset_from(target, -1);
        match walk_back_step(target, offset) {
            Some(prev) => {
                target = prev;
            },
            None => {
                return target;
            },
        }
        i = i + 1;
    }
    target
}

/// The nearest visible line at or above `line`: `line` itself when the
/// editor reports it visible (a forward offset of 1), else the line the
/// backward offset reaches, not above line 0.
pub open spec fn nearest_visible(line: int, forward: int, back: int) -> int {
    if line <= 0 {
        0
    } else if forward == 1 {
        line
    } else {
        clamp_i32(max_i(line - back + 1, 0))
    }
}

pub fn nearest_visible_line(line: i32, forward_offset: i32, back_offset: i32) -> (r: i32)
    ensures
        r == nearest_visible(line as int, forward_offset as int, back_offset as int),
{
    if line <= 0 {
        return 0;
    }
    if forward_offset == 1 {
        return line;
    }
    let d = line as i64 - back_offset as i64 + 1;
    clamp_to_i32(if d > 0 {
        d
    } else {
        0
    })
}

/// Scan upward from `line` for the nearest visible (unfolded) line.
pub fn nearest_visible_line_at_or_above<Q: FoldQuery>(q: &Q, line: i32) -> (r: i32)
    ensures
        r == nearest_visible(line as int, q.visible_offset(line, 1) as int, q.visible_offset(line, -1i32) as int),
        r >= 0,
        line <= 0 ==> r == 0,
{
    if line <= 0 {
        return 0;
    }
    let forward = q.next_visible_line_offset_from(line, 1);
    if forward == 1 {
        return line;
    }
    let back = q.next_visible_line_offset_from(line, -1);
    nearest_visible_line(line, forward, back)
}

/// `zz`: the first visible line that centres the caret line, walking half
/// a screen of visible lines back.
pub fn center_cursor_target<Q: FoldQuery>(q: &Q, caret_line: i32, visible_count: i32) -> (r: i32)
    ensures
        r == walk_back(q, caret_line, half_toward_zero(visible_count as int)),
        half_toward_zero(visible_count as int) <= 0 ==> r == caret_line,
        half_toward_zero(visible_count as int) > 0 ==> r >= 0,
{
    let half = if visible_count >= 0 {
        visible_count / 2
    } else {
        clamp_to_i32(-((-(visible_count as i64)) / 2))
    };
    assert(half as int == half_toward_zero(visible_count as int));
    walk_visible_lines_back(q, caret_line, half)
}

/// `zb`: the first visible line that puts the caret line at the bottom of
/// the viewport; with at most one visible line, the caret line itself.
pub fn cursor_to_bottom_target<Q: FoldQuery>(q: &Q, caret_line: i32, visible_count: i32) -> (r: i32)
    ensures
        visible_count <= 1 ==> r == caret_line,
        visible_count > 1 ==> r >= 0 && r == walk_back(q, caret_line, visible_count - 1),
{
    if visible_count <= 1 {
        return caret_line;
    }
    walk_visible_lines_back(q, caret_line, visible_count - 1)
}

// ---------------------------------------------------------------------------
// Horizontal
// ---------------------------------------------------------------------------

/// `zh`: scroll left by `count` columns, not past column 0.
pub fn scroll_left_target(h_scroll: i32, count: u32) -> (r: i32)
    ensures
        r == max_i(clamp_i32(h_scroll - sat_i32(count as int)), 0),
{
    let amount = u32_to_i32_sat(count);
    let s = saturating_sub_i32(h_scroll, amount);
    if s > 0 {
        s
    } else {
        0
    }
}

/// `zl`: scroll right by `count` columns.
pub fn scroll_right_target(h_scroll: i32, count: u32) -> (r: i32)
    ensures
        r == clamp_i32(h_scroll + sat_i32(count as int)),
{
    saturating_add_i32(h_scroll, u32_to_i32_sat(count))
}

/// Columns moved by `zH` / `zL`: half the visible line count (at least 1;
/// the line count stands in for the screen width) times `count`.
pub open spec fn half_screen_shift(visible_count: int, count: u32) -> int {
    max_i(half_toward_zero(visible_count), 1) * (count as i32)
}

fn half_screen(visible_count: i32, count: u32) -> (r: i32)
    requires
        i32::MIN <= half_screen_shift(visible_count as int, count) <= i32::MAX,
    ensures
        r == half_screen_shift(visible_count as int, count),
{
    let half = if visible_count >= 0 {
        visible_count / 2
    } else {
        clamp_to_i32(-((-(visible_count as i64)) / 2))
    };
    let half = if half > 1 {
        half
    } else {
        1
    };
    half * (count as i32)
}

/// `zH`: scroll left by half a screen per count, not past column 0.
pub fn scroll_half_left_target(h_scroll: i32, visible_count: i32, count: u32) -> (r: i32)
    requires
        i32::MIN <= half_screen_shift(visible_count as int, count) <= i32::MAX,
    ensures
        r == max_i(clamp_i32(h_scroll - half_screen_shift(visible_count as int, count)), 0),
{
    let shift = half_screen(visible_count, count);
    let s = saturating_sub_i32(h_scroll, shift);
    if s > 0 {
        s
    } else {
        0
    }
}

/// `zL`: scroll right by half a screen per count.
pub fn scroll_half_right_target(h_scroll: i32, visible_count: i32, count: u32) -> (r: i32)
    requires
        i32::MIN <= half_screen_shift(visible_count as int, count) <= i32::MAX,
    ensures
        r == clamp_i32(h_scroll + half_screen_shift(visible_count as int, count)),
{
    let shift = half_screen(visible_count, count);
    saturating_add_i32(h_scroll, shift)
}

/// `ze`: the horizontal scroll that puts the caret column at the right
/// edge (the line count standing in for the screen width), not past
/// column 0.
pub fn cursor_to_right_edge_target(col: i32, visible_count: i32) -> (r: i32)
    requires
        i32::MIN <= col - visible_count <= i32::MAX,
        i32::MIN <= col - visible_count + 1 <= i32::MAX,
    ensures
        r == max_i(col - visible_count + 1, 0),
{
    let t = col - visible_count + 1;
    if t > 0 {
        t
    } else {
        0
    }
}

/// Scrolling left never goes past column 0, and scrolling right by a
/// non-negative amount never moves left.
pub proof fn lemma_horizontal_scroll_bounds(h: i32, shift: int)
    requires
        0 <= shift <= i32::MAX,
    ensures
        max_i(clamp_i32(h - shift), 0) >= 0,
        h >= 0 ==> max_i(clamp_i32(h - shift), 0) <= h,
        clamp_i32(h + shift) >= h,
{
}

// ---------------------------------------------------------------------------
// Fold-aware line movement
// ---------------------------------------------------------------------------

/// The line above `current`, skipping folded lines: `offset` is the
/// editor's backward offset from the line just above. Never above line 0.
pub open spec fn up_visible(current: int, offset: int) -> int {
    if current <= 0 {
        0
    } else {
        clamp_i32(max_i(current - offset, 0))
    }
}

/// The line below `current`, skipping folded lines: `offset` is the
/// editor's forward offset from the line just below. Never past the last
/// line.
pub open spec fn down_visible(current: int, last: int, offset: int) -> int {
    if current >= last {
        last
    } else {
        min_i(clamp_i32(current + offset), last)
    }
}

/// The line reached moving up from `current_line` by the editor's
/// backward `offset` (see [`up_visible`]).
pub fn up_visible_line(current_line: i32, offset: i32) -> (r: i32)
    ensures
        r == up_visible(current_line as int, offset as int),
{
    if current_line <= 0 {
        return 0;
    }
    let d = current_line as i64 - offset as i64;
    clamp_to_i32(if d > 0 {
        d
    } else {
        0
    })
}

/// The line reached moving down from `current_line` by the editor's
/// forward `offset`, with `last` the last line (see [`down_visible`]).
pub fn down_visible_line(current_line: i32, last: i32, offset: i32) -> (r: i32)
    ensures
        r == down_visible(current_line as int, last as int, offset as int),
{
    if current_line >= last {
        return last;
    }
    let t = clamp_to_i32(current_line as i64 + offset as i64);
    if t < last {
        t
    } else {
        last
    }
}

/// Move up one visible line from `current`.
pub fn move_up_visible<Q: FoldQuery>(q: &Q, current_line: i32) -> (r: i32)
    ensures
        current_line <= 0 ==> r == 0,
        current_line > 0 ==> r == up_visible(current_line as int, q.visible_offset((current_line - 1) as i32, -1i32) as int),
        r >= 0,
{
    if current_line <= 0 {
        return 0;
    }
    let offset = q.next_visible_line_offset_from(current_line - 1, -1);
    up_visible_line(current_line, offset)
}

/// Where a move down from `current` asks the editor: the line below,
/// not above line 0.
pub open spec fn line_below(current: int) -> i32 {
    if current + 1 < 0 {
        0
    } else {
        (current + 1) as i32
    }
}

/// Move down one visible line from `current`, with `line_count` lines in
/// the document (at least one counted).
pub fn move_down_visible<Q: FoldQuery>(q: &Q, current_line: i32, line_count: i32) -> (r: i32)
    ensures
        r == down_visible(
            current_line as int,
            max_i(line_count as int, 1) - 1,
            q.visible_offset(line_below(current_line as int), 1) as int,
        ),
        r <= max_i(line_count as int, 1) - 1,
        current_line >= max_i(line_count as int, 1) - 1 ==> r == max_i(line_count as int, 1) - 1,
{
    let count = if line_count > 1 {
        line_count
    } else {
        1
    };
    let last = count - 1;
    if current_line >= last {
        return last;
    }
    let from = current_line + 1;
    let from = if from < 0 {
        0
    } else {
        from
    };
    let offset = q.next_visible_line_offset_from(from, 1);
    down_visible_line(current_line, last, offset)
}

/// Whether `line` is folded away: it exists and the editor's next visible
/// line from it is further than one line.
pub open spec fn folded<Q: FoldQuery>(q: &Q, line: i32, line_count: i32) -> bool {
    line < line_count && q.visible_offset(line, 1) > 1
}

/// The nearest visible line from `line` in the given direction: `line`
/// itself when it is not folded, else one visible line down or up.
pub open spec fn next_visible<Q: FoldQuery>(q: &Q, line: i32, forward: bool, line_count: i32) -> int {
    if !folded(q, line, line_count) {
        line as int
    } else if forward {
        down_visible(line as int, max_i(line_count as int, 1) - 1, q.visible_offset(line_below(line as int), 1) as int)
    } else {
        up_visible(line as int, q.visible_offset((line - 1) as i32, -1i32) as int)
    }
}

/// Whether `line` is folded away: it exists and the next visible line
/// from it is further than one line.
pub fn is_folded<Q: FoldQuery>(q: &Q, line: i32, line_count: i32) -> (r: bool)
    ensures
        r == folded(q, line, line_count),
{
    if line >= line_count {
        return false;
    }
    q.next_visible_line_offset_from(line, 1) > 1
}

/// The nearest visible line from `line` in the given direction: `line`
/// itself when it is not folded.
pub fn next_visible_line<Q: FoldQuery>(q: &Q, line: i32, forward: bool, line_count: i32) -> (r: i32)
    ensures
        r == next_visible(q, line, forward, line_count),
{
    if !is_folded(q, line, line_count) {
        return line;
    }
    if forward {
        move_down_visible(q, line, line_count)
    } else {
        move_up_visible(q, line)
    }
}

} // verus!
