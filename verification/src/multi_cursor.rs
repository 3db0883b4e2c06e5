//! Placing the engine's cursors and selections as editor carets after a
//! key, when several cursors are active.

use crate::codec::byte_to_line_col_spec;
use crate::codec::i32_to_usize;
use crate::codec::DocumentView;
use crate::cursor::selection_for;
use crate::cursor::selection_fits;
use crate::cursor::selection_range;
use crate::cursor::SelectionShape;
use crate::types::CharLineCol;
use vstd::prelude::*;

verus! {

/// `(line, column, byte offset)` of a cursor head.
pub open spec fn caret_of(cs: Seq<char>, head: usize) -> (usize, usize, usize) {
    let (l, c) = byte_to_line_col_spec(cs, head as int);
    (l as usize, c as usize, head)
}

/// `(from line, from column, to line, to column)` of the editor selection
/// for a cursor's visual selection.
pub open spec fn selection_of(cs: Seq<char>, anchor: usize, head: usize, shape: SelectionShape) -> (
    usize,
    usize,
    usize,
    usize,
) {
    let (from, to) = selection_range(cs, anchor as int, head as int, shape);
    (from.line as usize, from.col as usize, to.line as usize, to.col as usize)
}

/// What to sync to the editor: a caret per cursor, and in Visual mode a
/// selection per cursor; the primary caret's line is scrolled to.
pub struct MultiCursorSync {
    pub positions: Vec<(usize, usize, usize)>,
    pub selections: Option<Vec<(usize, usize, usize, usize)>>,
    pub primary_line: Option<i32>,
}

/// The carets and selections for the engine's cursors `(anchor, head)`,
/// the primary first; `visual` is the visual mode's shape, if any. Each
/// selection's end column fits (see [`selection_fits`]).
pub fn multi_cursor_sync_plan(doc: &DocumentView, cursors: &Vec<(usize, usize)>, visual: Option<SelectionShape>) -> (r: MultiCursorSync)
    requires
        doc.wf(),
        visual matches Some(shape) ==> forall|i: int|
            0 <= i < cursors@.len() ==> #[trigger] selection_fits(doc.text@, cursors@[i].0 as int, cursors@[i].1 as int, shape),
    ensures
        r.positions@.len() == cursors@.len(),
        forall|i: int| 0 <= i < cursors@.len() ==> #[trigger] r.positions@[i] == caret_of(doc.text@, cursors@[i].1),
        visual is None ==> r.selections is None,
        visual matches Some(shape) ==> (r.selections matches Some(sels) && sels@.len() == cursors@.len() && forall|i: int|
            0 <= i < cursors@.len() ==> #[trigger] sels@[i] == selection_of(doc.text@, cursors@[i].0, cursors@[i].1, shape)),
        cursors@.len() == 0 ==> r.primary_line is None,
        cursors@.len() > 0 ==> r.primary_line == Some(byte_to_line_col_spec(doc.text@, cursors@[0].1 as int).0),
{
    let n = cursors.len();
    let mut positions: Vec<(usize, usize, usize)> = Vec::new();
    let mut i: usize = 0;
    while i < n
        invariant
            doc.wf(),
            n == cursors@.len(),
            i <= n,
            positions@.len() == i,
            forall|j: int| 0 <= j < i ==> #[trigger] positions@[j] == caret_of(doc.text@, cursors@[j].1),
        decreases n - i,
    {
        let head = cursors[i].1;
        let lc = doc.line_index.byte_to_line_col(doc.text, head);
        proof {
            crate::codec::lemma_position_nonneg(doc.text@, head as int);
        }
        positions.push((i32_to_usize(lc.line), i32_to_usize(lc.col), head));
        i = i + 1;
    }
    let selections = match visual {
        Some(shape) => {
            let mut sels: Vec<(usize, usize, usize, usize)> = Vec::new();
            let mut k: usize = 0;
            while k < n
                invariant
                    doc.wf(),
                    visual == Some(shape),
                    forall|i: int|
                        0 <= i < cursors@.len() ==> #[trigger] selection_fits(doc.text@, cursors@[i].0 as int, cursors@[i].1 as int, shape),
                    n == cursors@.len(),
                    k <= n,
                    sels@.len() == k,
                    forall|j: int|
                        0 <= j < k ==> #[trigger] sels@[j] == selection_of(doc.text@, cursors@[j].0, cursors@[j].1, shape),
                decreases n - k,
            {
                let (anchor, head) = cursors[k];
                let (from, to) = selection_for(doc, anchor, head, shape);
                proof {
                    crate::cursor::lemma_selection_nonneg(doc.text@, anchor as int, head as int, shape);
                }
                sels.push((i32_to_usize(from.line), i32_to_usize(from.col), i32_to_usize(to.line), i32_to_usize(to.col)));
                k = k + 1;
            }
            Some(sels)
        },
        None => None,
    };
    let primary_line = if n > 0 {
        let lc = doc.line_index.byte_to_line_col(doc.text, cursors[0].1);
        Some(lc.line)
    } else {
        None
    };
    MultiCursorSync { positions, selections, primary_line }
}

/// Going back to one cursor after several: the primary caret is put back
/// at the engine's primary head. `None` when there was only one cursor.
pub fn single_cursor_restore(was_multi: bool, doc: &DocumentView, primary_head: usize) -> (r: Option<CharLineCol>)
    requires
        doc.wf(),
    ensures
        !was_multi ==> r is None,
        was_multi ==> (r matches Some(p) && (p.line, p.col) == byte_to_line_col_spec(doc.text@, primary_head as int)),
{
    if was_multi {
        Some(doc.line_index.byte_to_line_col(doc.text, primary_head))
    } else {
        None
    }
}

/// Whether carets must be imported into the engine: only when the editor's
/// caret count changed since the last sync.
pub fn needs_caret_import(current_count: usize, last_count: usize) -> (r: bool)
    ensures
        r == (current_count != last_count),
{
    current_count != last_count
}

} // verus!
