//! Coordinate codec between the editor's `(line, column)` positions, whose
//! columns count Unicode scalar values, and the engine's UTF-8 byte offsets.
//!
//! [`LineIndex`] caches the byte offset at which every line starts, so a
//! line lookup is a binary search, and keeps that cache in step with edits
//! through [`LineIndex::apply_insert`] and [`LineIndex::apply_delete`].

use vstd::prelude::*;
use vstd::string::StringSliceAdditionalSpecFns;
use vstd::utf8::{encode_utf8, is_char_boundary};

use crate::text::{
    byte_at, byte_len, chars_within, lemma_boundary_is_byte_at, lemma_byte_at_full,
    lemma_byte_at_is_boundary, lemma_byte_at_mono, lemma_byte_at_step, lemma_byte_at_subrange,
    lemma_chars_within, lemma_chars_within_unique, lemma_encode_injective, lemma_encode_subrange,
    lemma_width_bounds, slice_chars, width,
};
use crate::types::{CharLineCol, GraphemeLineCol};
use crate::graphemes::{
    clusters_covering, grapheme_clusters, graphemes_of, lemma_clusters_covering_le, lemma_flatten_take,
    lemma_flatten_take_step, views,
};
use crate::lines::{lemma_starts_encode, 
    lemma_count_le, lemma_count_le_unique, count_le, lemma_starts_concat, lemma_starts_prefix,
    lemma_starts_shape, shift, starts_of, strictly_increasing, ints, lemma_ints_push,
    lemma_starts_count_bound,
};

verus! {

broadcast use vstd::seq::group_seq_axioms;

/// Godot `i32` to `usize`: negative values (Godot's `-1` sentinel) clamp to 0.
pub open spec fn clamp_nonneg(v: i32) -> int {
    if v < 0 {
        0
    } else {
        v as int
    }
}

/// `usize` to Godot `i32`: values above `i32::MAX` clamp to `i32::MAX`.
pub open spec fn sat_i32(v: int) -> i32 {
    if v > i32::MAX {
        i32::MAX
    } else {
        v as i32
    }
}

pub open spec fn min_int(a: int, b: int) -> int {
    if a <= b {
        a
    } else {
        b
    }
}

/// Character index at which line `l` of `cs` ends (its `\n`, or the end).
pub open spec fn line_end_char(cs: Seq<char>, l: int) -> int {
    let st = starts_of(cs, '\n');
    if l + 1 < st.len() {
        st[l + 1] - 1
    } else {
        cs.len() as int
    }
}

/// Characters of line `l` of `cs`, without its terminating `\n`.
pub open spec fn line_chars(cs: Seq<char>, l: int) -> Seq<char> {
    cs.subrange(starts_of(cs, '\n')[l], line_end_char(cs, l))
}

/// Byte offset of the editor position `(line, col)`, with the line clamped
/// to the last line and the column clamped to the end of the line.
pub open spec fn line_col_to_byte_spec(cs: Seq<char>, line: i32, col: i32) -> int {
    if cs.len() == 0 {
        0
    } else {
        let st = starts_of(cs, '\n');
        let l = min_int(clamp_nonneg(line), st.len() - 1);
        byte_at(cs, st[l] + min_int(clamp_nonneg(col), line_chars(cs, l).len() as int))
    }
}

/// Character index reached from byte `offset`: clamped to the text and
/// moved down to the start of the character it falls in.
pub open spec fn char_index_at_byte(cs: Seq<char>, offset: int) -> int {
    chars_within(cs, min_int(offset, byte_len(cs) as int))
}

/// Line (number of line starts up to `k`, minus one) of character index `k`.
pub open spec fn line_of_char(cs: Seq<char>, k: int) -> int {
    starts_of(cs.take(k), '\n').len() - 1
}

/// Column (characters since the line start) of character index `k`.
pub open spec fn col_of_char(cs: Seq<char>, k: int) -> int {
    k - starts_of(cs.take(k), '\n').last()
}

/// Editor position of byte `offset`.
pub open spec fn byte_to_line_col_spec(cs: Seq<char>, offset: int) -> (i32, i32) {
    if cs.len() == 0 {
        (0, 0)
    } else {
        let k = char_index_at_byte(cs, offset);
        (sat_i32(line_of_char(cs, k)), sat_i32(col_of_char(cs, k)))
    }
}

/// Facts relating the byte line starts of a text to its character lines.
pub proof fn lemma_char_lines(cs: Seq<char>)
    ensures
        starts_of(encode_utf8(cs), 10u8).len() == starts_of(cs, '\n').len(),
        forall|i: int| 0 <= i < starts_of(cs, '\n').len() ==>
            #[trigger] starts_of(encode_utf8(cs), 10u8)[i] == byte_at(cs, starts_of(cs, '\n')[i]),
        forall|l: int| 0 <= l < starts_of(cs, '\n').len() ==>
            0 <= starts_of(cs, '\n')[l] <= #[trigger] line_end_char(cs, l) <= cs.len(),
        forall|l: int| 0 <= l && l + 1 < starts_of(cs, '\n').len() ==>
            #[trigger] byte_at(cs, line_end_char(cs, l)) == starts_of(encode_utf8(cs), 10u8)[l + 1] - 1,
{
    lemma_starts_encode(cs);
    lemma_starts_shape(cs, '\n');
    let st = starts_of(cs, '\n');
    assert forall|l: int| 0 <= l && l + 1 < st.len() implies #[trigger] byte_at(cs, line_end_char(cs, l))
        == starts_of(encode_utf8(cs), 10u8)[l + 1] - 1 by {
        let e = st[l + 1] - 1;
        assert(st[0] < st[l + 1]);
        lemma_byte_at_step(cs, e);
        assert(cs[e] == '\n');
        lemma_width_bounds('\n');
    }
    assert forall|l: int| 0 <= l < st.len() implies 0 <= st[l] <= #[trigger] line_end_char(cs, l) <= cs.len() by {
        if l + 1 < st.len() {
            assert(st[l] < st[l + 1]);
        }
    }
}


/// Editor positions are never negative.
pub proof fn lemma_position_nonneg(cs: Seq<char>, offset: int)
    requires
        offset >= 0,
    ensures
        byte_to_line_col_spec(cs, offset).0 >= 0,
        byte_to_line_col_spec(cs, offset).1 >= 0,
{
    if cs.len() > 0 {
        let k = char_index_at_byte(cs, offset);
        lemma_chars_within(cs, min_int(offset, byte_len(cs) as int));
        lemma_starts_shape(cs.take(k), '\n');
        let st = starts_of(cs.take(k), '\n');
        assert(st.last() <= k);
    }
}

/// The character index of an editor position within its line.
proof fn lemma_position_of_index(cs: Seq<char>, k: int, l: int)
    requires
        0 <= k <= cs.len(),
        0 <= l < starts_of(cs, '\n').len(),
        starts_of(cs, '\n')[l] <= k <= line_end_char(cs, l),
    ensures
        line_of_char(cs, k) == l,
        col_of_char(cs, k) == k - starts_of(cs, '\n')[l],
{
    let st = starts_of(cs, '\n');
    lemma_starts_shape(cs, '\n');
    lemma_starts_prefix(cs, k, '\n');
    let p = starts_of(cs.take(k), '\n');
    lemma_starts_shape(cs.take(k), '\n');
    if p.len() <= l {
        assert(st[l] > k);
    }
    if p.len() > l + 1 {
        assert(st[l + 1] <= k);
        assert(line_end_char(cs, l) == st[l + 1] - 1);
    }
    assert(p.len() == l + 1);
    assert(p.last() == p[l]);
    assert(p[l] == st.take(p.len() as int)[l]);
}

/// Reading the editor position of a character boundary and converting it
/// back gives the same byte offset, for texts whose positions fit an `i32`.
pub proof fn lemma_offset_position_round_trip(cs: Seq<char>, k: int)
    requires
        0 <= k <= cs.len(),
        cs.len() < i32::MAX,
    ensures
        ({
            let (line, col) = byte_to_line_col_spec(cs, byte_at(cs, k));
            line_col_to_byte_spec(cs, line, col) == byte_at(cs, k)
        }),
{
    lemma_byte_at_full(cs);
    if cs.len() > 0 {
        let st = starts_of(cs, '\n');
        lemma_starts_shape(cs, '\n');
        lemma_char_lines(cs);
        lemma_byte_at_mono(cs, k, cs.len() as int);
        if k < cs.len() {
            lemma_byte_at_mono(cs, k, k + 1);
        }
        lemma_chars_within_unique(cs, byte_at(cs, k), k);
        assert(char_index_at_byte(cs, byte_at(cs, k)) == k);
        let l = count_le(st, k) - 1;
        lemma_count_le(st, k);
        assert(st[0] <= k);
        if count_le(st, k) == 0 {
            assert(st[0] > k);
        }
        if l + 1 < st.len() {
            assert(st[l + 1] > k);
        }
        lemma_position_of_index(cs, k, l);
        lemma_starts_count_bound(st, cs.len() as int, l);
    }
}

/// Converting an editor position on the text (a line, and a column up to
/// that line's length) to a byte offset and back gives the same position,
/// for texts whose positions fit an `i32`.
pub proof fn lemma_position_offset_round_trip(cs: Seq<char>, line: i32, col: i32)
    requires
        cs.len() < i32::MAX,
        0 <= line < starts_of(cs, '\n').len(),
        0 <= col <= line_chars(cs, line as int).len(),
        cs.len() > 0,
    ensures
        byte_to_line_col_spec(cs, line_col_to_byte_spec(cs, line, col)) == (line, col),
{
    let st = starts_of(cs, '\n');
    lemma_starts_shape(cs, '\n');
    lemma_char_lines(cs);
    lemma_byte_at_full(cs);
    let l = line as int;
    let k = st[l] + col;
    assert(line_chars(cs, l).len() == line_end_char(cs, l) - st[l]);
    assert(line_col_to_byte_spec(cs, line, col) == byte_at(cs, k));
    lemma_byte_at_mono(cs, k, cs.len() as int);
    if k < cs.len() {
        lemma_byte_at_mono(cs, k, k + 1);
    }
    lemma_chars_within_unique(cs, byte_at(cs, k), k);
    lemma_position_of_index(cs, k, l);
    lemma_starts_count_bound(st, cs.len() as int, l);
}

/// The editor position of any byte offset is on a line of the text, at a
/// column no further than that line's end.
pub proof fn lemma_position_on_line(cs: Seq<char>, offset: int)
    requires
        offset >= 0,
        cs.len() < i32::MAX,
    ensures
        0 <= byte_to_line_col_spec(cs, offset).0 < starts_of(cs, '\n').len(),
        0 <= byte_to_line_col_spec(cs, offset).1 <= line_chars(cs, byte_to_line_col_spec(cs, offset).0 as int).len(),
{
    let st = starts_of(cs, '\n');
    lemma_starts_shape(cs, '\n');
    if cs.len() == 0 {
        assert(st =~= seq![0int]);
        assert(line_chars(cs, 0).len() == 0);
    } else {
        let k = char_index_at_byte(cs, offset);
        lemma_chars_within(cs, min_int(offset, byte_len(cs) as int));
        lemma_char_lines(cs);
        let l = count_le(st, k) - 1;
        lemma_count_le(st, k);
        assert(st[0] <= k);
        if count_le(st, k) == 0 {
            assert(st[0] > k);
        }
        if l + 1 < st.len() {
            assert(st[l + 1] > k);
        }
        lemma_position_of_index(cs, k, l);
        lemma_starts_count_bound(st, cs.len() as int, l);
    }
}

/// For a character boundary `o` of a text whose positions fit an `i32`,
/// converting `o` to an editor position and back gives `o`.
pub proof fn lemma_byte_position_round_trip(cs: Seq<char>, o: int)
    requires
        0 <= o <= byte_len(cs),
        is_char_boundary(encode_utf8(cs), o),
        cs.len() < i32::MAX,
    ensures
        ({
            let (line, col) = byte_to_line_col_spec(cs, o);
            line_col_to_byte_spec(cs, line, col) == o
        }),
{
    let k = lemma_boundary_is_byte_at(cs, o);
    lemma_offset_position_round_trip(cs, k);
}

/// Round trip through grapheme positions: for a character index `k` at a
/// cluster boundary of its line (the clusters of the line up to `k` are the
/// first clusters of the whole line, non-empty, and make up that part of
/// the line), the editor's grapheme position of `k` converts back to `k`.
/// The text's positions fit an `i32`.
pub proof fn lemma_grapheme_position_round_trip(cs: Seq<char>, k: int)
    requires
        0 <= k <= cs.len(),
        cs.len() < i32::MAX,
        ({
            let l = line_of_char(cs, k);
            let p = cs.subrange(starts_of(cs.take(k), '\n').last(), k);
            let gp = grapheme_clusters(p);
            let gs = grapheme_clusters(line_chars(cs, l));
            &&& gp.len() <= gs.len()
            &&& gs.take(gp.len() as int) == gp
            &&& gp.flatten() == p
            &&& forall|i: int| 0 <= i < gp.len() ==> (#[trigger] gp[i]).len() > 0
        }),
    ensures
        ({
            let l = line_of_char(cs, k);
            let p = cs.subrange(starts_of(cs.take(k), '\n').last(), k);
            let j = grapheme_clusters(p).len() as int;
            let gs = grapheme_clusters(line_chars(cs, l));
            &&& 0 <= l < starts_of(cs, '\n').len()
            &&& sat_i32(l) == l
            &&& sat_i32(j) == j
            &&& byte_at(cs, starts_of(cs, '\n')[l] + gs.take(min_int(j, gs.len() as int)).flatten().len()) == byte_at(cs, k)
        }),
{
    let st = starts_of(cs, '\n');
    lemma_starts_shape(cs, '\n');
    lemma_char_lines(cs);
    let l = count_le(st, k) - 1;
    lemma_count_le(st, k);
    assert(st[0] <= k);
    if count_le(st, k) == 0 {
        assert(st[0] > k);
    }
    if l + 1 < st.len() {
        assert(st[l + 1] > k);
    }
    lemma_position_of_index(cs, k, l);
    lemma_starts_count_bound(st, cs.len() as int, l);
    lemma_starts_prefix(cs, k, '\n');
    let q = starts_of(cs.take(k), '\n');
    lemma_starts_shape(cs.take(k), '\n');
    assert(q.last() == q[l]);
    assert(q[l] == st.take(q.len() as int)[l]);
    let p = cs.subrange(st[l], k);
    let gp = grapheme_clusters(p);
    crate::graphemes::lemma_clusters_covering_le(gp, p.len() as int);
    lemma_flatten_len_bound(gp);
}

/// With non-empty parts, there are no more parts than elements.
proof fn lemma_flatten_len_bound(gs: Seq<Seq<char>>)
    requires
        forall|i: int| 0 <= i < gs.len() ==> (#[trigger] gs[i]).len() > 0,
    ensures
        gs.len() <= gs.flatten().len(),
    decreases gs.len(),
{
    if gs.len() > 0 {
        let r = gs.drop_first();
        assert forall|i: int| 0 <= i < r.len() implies (#[trigger] r[i]).len() > 0 by {
            assert(r[i] == gs[i + 1]);
        }
        lemma_flatten_len_bound(r);
        assert(gs.flatten() == gs[0] + r.flatten());
    }
}

/// Sorted byte offsets of line starts, plus the byte length of the text
/// they were computed from.
#[derive(Debug)]
pub struct LineIndex {
    line_starts: Vec<usize>,
    text_len: usize,
}

/// Largest number of leading elements of the increasing sequence `v` that
/// are at most `x`, computed by binary search.
fn count_le_exec(v: &Vec<usize>, x: usize) -> (r: usize)
    requires
        strictly_increasing(ints(v@)),
    ensures
        r == count_le(ints(v@), x as int),
{
    let ghost s = ints(v@);
    let mut lo: usize = 0;
    let mut hi: usize = v.len();
    while lo < hi
        invariant
            0 <= lo <= hi <= v@.len(),
            s == ints(v@),
            strictly_increasing(s),
            forall|i: int| 0 <= i < lo ==> #[trigger] s[i] <= x,
            forall|i: int| hi <= i < s.len() ==> #[trigger] s[i] > x,
        decreases hi - lo,
    {
        let mid = lo + (hi - lo) / 2;
        if v[mid] <= x {
            assert forall|i: int| 0 <= i < mid + 1 implies #[trigger] s[i] <= x by {
                if i < mid {
                    assert(s[i] < s[mid as int]);
                }
            }
            lo = mid + 1;
        } else {
            assert forall|i: int| mid <= i < s.len() implies #[trigger] s[i] > x by {
                if i > mid {
                    assert(s[mid as int] < s[i]);
                }
            }
            hi = mid;
        }
    }
    proof {
        lemma_count_le_unique(s, x as int, lo as int);
    }
    lo
}

/// Godot `i32` to `usize`. Negatives clamp to 0 (Godot APIs return -1 as a sentinel).
pub fn i32_to_usize(val: i32) -> (r: usize)
    ensures
        r == clamp_nonneg(val),
{
    if val < 0 {
        0
    } else {
        val as usize
    }
}

/// `usize` to Godot `i32`. Overflows clamp to `i32::MAX`.
pub fn usize_to_i32(val: usize) -> (r: i32)
    ensures
        r == sat_i32(val as int),
{
    if val > i32::MAX as usize {
        i32::MAX
    } else {
        val as i32
    }
}

/// `u32` to `i32` with saturation at `i32::MAX`.
pub fn u32_to_i32_sat(val: u32) -> (r: i32)
    ensures
        r == sat_i32(val as int),
{
    if val > i32::MAX as u32 {
        i32::MAX
    } else {
        val as i32
    }
}

/// Number of characters of `s`.
pub fn char_count(s: &str) -> (n: usize)
    ensures
        n == s@.len(),
{
    let total = crate::text::str_byte_len(s);
    let mut n: usize = 0;
    for _c in it: s.chars()
        invariant
            n == it.index(),
            it.seq() == s@,
            s@.len() <= total,
    {
        n = n + 1;
    }
    n
}

/// Byte offset of character column `char_col` in `line`, clamped to the
/// end of the line.
pub fn char_col_to_byte_offset(line: &str, char_col: usize) -> (r: usize)
    ensures
        r == byte_at(line@, min_int(char_col as int, line@.len() as int)),
{
    let total = crate::text::str_byte_len(line);
    let mut count: usize = 0;
    let mut off: usize = 0;
    proof {
        lemma_byte_at_full(line@);
    }
    for c in it: line.chars()
        invariant
            it.seq() == line@,
            count == it.index(),
            count <= char_col,
            off == byte_at(line@, count as int),
            byte_len(line@) <= usize::MAX,
    {
        if count == char_col {
            return off;
        }
        proof {
            lemma_byte_at_step(line@, count as int);
            lemma_byte_at_mono(line@, count + 1, line@.len() as int);
            lemma_byte_at_full(line@);
        }
        off = off + crate::text::char_width(c);
        count = count + 1;
    }
    total
}

/// Character column of byte offset `byte_col` in `line` (clamped to the end
/// of the line); that offset must fall between characters.
pub fn byte_offset_to_char_col(line: &str, byte_col: usize) -> (r: usize)
    requires
        is_char_boundary(line.spec_bytes(), min_int(byte_col as int, byte_len(line@) as int)),
    ensures
        r <= line@.len(),
        byte_at(line@, r as int) == min_int(byte_col as int, byte_len(line@) as int),
{
    let total = crate::text::str_byte_len(line);
    let clamped = if byte_col < total { byte_col } else { total };
    let ghost k = lemma_boundary_is_byte_at(line@, clamped as int);
    let head = slice_chars(line, 0, clamped, Ghost(0int), Ghost(k));
    proof {
        lemma_byte_at_full(line@);
        assert(line@.subrange(0, k) =~= line@.take(k));
    }
    char_count(head)
}

/// Largest character boundary of `s` at or below `offset` (clamped to the
/// length of `s`).
pub fn floor_char_boundary(s: &str, offset: usize) -> (r: usize)
    ensures
        r == byte_at(s@, chars_within(s@, min_int(offset as int, byte_len(s@) as int))),
{
    let len = crate::text::str_byte_len(s);
    let mut pos = if offset < len { offset } else { len };
    let ghost top = pos as int;
    let ghost k = chars_within(s@, top);
    proof {
        lemma_chars_within(s@, top);
        lemma_byte_at_full(s@);
        lemma_byte_at_mono(s@, k, s@.len() as int);
    }
    while pos > 0 && !s.is_char_boundary(pos)
        invariant
            0 <= pos <= top <= byte_len(s@),
            byte_at(s@, k) <= top,
            k < s@.len() ==> byte_at(s@, k + 1) > top,
            0 <= k <= s@.len(),
            forall|q: int| pos < q <= top ==> !is_char_boundary(encode_utf8(s@), q),
        decreases pos,
    {
        pos = pos - 1;
    }
    proof {
        lemma_byte_at_is_boundary(s@, k);
        vstd::utf8::encode_utf8_valid_utf8(s@);
        vstd::utf8::is_char_boundary_start_end_of_seq(encode_utf8(s@));
        let j = lemma_boundary_is_byte_at(s@, pos as int);
        if j > k {
            lemma_byte_at_mono(s@, k + 1, j);
        }
        if byte_at(s@, k) > pos {
            assert(!is_char_boundary(encode_utf8(s@), byte_at(s@, k)));
        }
        if j < k {
            lemma_byte_at_mono(s@, j, k);
        }
    }
    pos
}

/// Index of the first `\n` of `cs` at or after `k`, or the length of `cs`.
pub open spec fn next_newline(cs: Seq<char>, k: int) -> int
    decreases cs.len() - k,
{
    if k >= cs.len() {
        cs.len() as int
    } else if cs[k] == '\n' {
        k
    } else {
        next_newline(cs, k + 1)
    }
}

proof fn lemma_next_newline(cs: Seq<char>, k: int, e: int)
    requires
        0 <= k <= e <= cs.len(),
        forall|j: int| k <= j < e ==> cs[j] != '\n',
        e == cs.len() || cs[e] == '\n',
    ensures
        next_newline(cs, k) == e,
    decreases e - k,
{
    if k < e {
        lemma_next_newline(cs, k + 1, e);
    }
}

/// A line runs from its start to the next newline.
proof fn lemma_line_end_is_next_newline(cs: Seq<char>, l: int)
    requires
        0 <= l < starts_of(cs, '\n').len(),
    ensures
        next_newline(cs, starts_of(cs, '\n')[l]) == line_end_char(cs, l),
{
    let st = starts_of(cs, '\n');
    lemma_starts_shape(cs, '\n');
    lemma_char_lines(cs);
    let e = line_end_char(cs, l);
    assert forall|j: int| st[l] <= j < e implies cs[j] != '\n' by {
        if cs[j] == '\n' {
            crate::lines::lemma_starts_complete(cs, '\n', j);
            let i = choose|i: int| 0 <= i < st.len() && st[i] == j + 1;
            if i <= l {
                assert(st[i] <= st[l]);
            } else if l + 1 < st.len() && i >= l + 1 {
                assert(st[l + 1] <= st[i]);
            }
        }
    }
    lemma_next_newline(cs, st[l], e);
}

/// Byte offset where line `target_line` starts, found by a linear scan.
pub fn find_line_start(text: &str, target_line: usize) -> (r: Option<usize>)
    ensures
        target_line < starts_of(text.spec_bytes(), 10u8).len() ==> r == Some(
            starts_of(text.spec_bytes(), 10u8)[target_line as int] as usize,
        ),
        target_line >= starts_of(text.spec_bytes(), 10u8).len() ==> r.is_none(),
{
    let ghost b = text.spec_bytes();
    proof {
        lemma_starts_shape(b, 10u8);
    }
    if target_line == 0 {
        return Some(0);
    }
    let bytes = text.as_bytes();
    let mut current_line: usize = 0;
    let mut i: usize = 0;
    proof {
        assert(b.take(0) =~= Seq::<u8>::empty());
    }
    while i < bytes.len()
        invariant
            b == bytes@,
            b == text.spec_bytes(),
            i <= b.len(),
            0 < target_line,
            current_line + 1 == starts_of(b.take(i as int), 10u8).len(),
            current_line < target_line,
        decreases b.len() - i,
    {
        proof {
            assert(b.take(i + 1).drop_last() =~= b.take(i as int));
            assert(b.take(i + 1).last() == b[i as int]);
            crate::lines::lemma_starts_prefix(b, i + 1, 10u8);
        }
        if bytes[i] == 10u8 {
            assert(starts_of(b.take(i + 1), 10u8) == starts_of(b.take(i as int), 10u8).push(i + 1));
            current_line = current_line + 1;
            if current_line == target_line {
                proof {
                    let p = starts_of(b.take(i + 1), 10u8);
                    assert(p.last() == i + 1);
                    assert(p.len() == target_line + 1);
                    assert(p == starts_of(b, 10u8).take(p.len() as int));
                    assert(starts_of(b, 10u8)[target_line as int] == p[target_line as int]);
                    assert(starts_of(b, 10u8)[target_line as int] == i + 1);
                    assert(target_line < starts_of(b, 10u8).len());
                    assert(b == text.spec_bytes());
                    assert(starts_of(text.spec_bytes(), 10u8)[target_line as int] == i + 1);
                }
                return Some(i + 1);
            }
        }
        i = i + 1;
    }
    proof {
        assert(b.take(i as int) =~= b);
    }
    None
}

/// Content of the line starting at byte `line_start`, up to the next `\n`.
pub fn line_text_at(text: &str, line_start: usize) -> (r: &str)
    requires
        is_char_boundary(text.spec_bytes(), line_start as int),
    ensures
        exists|k: int|
            0 <= k <= text@.len() && byte_at(text@, k) == line_start && r@ == text@.subrange(
                k,
                next_newline(text@, k),
            ),
{
    let total = crate::text::str_byte_len(text);
    proof {
        vstd::utf8::encode_utf8_valid_utf8(text@);
        lemma_byte_at_full(text@);
        if line_start > total {
            assert(!is_char_boundary(encode_utf8(text@), line_start as int));
        }
    }
    let ghost k = lemma_boundary_is_byte_at(text@, line_start as int);
    let ghost cs = text@;
    proof {
        lemma_byte_at_mono(cs, 0, cs.len() as int);
    }
    let mut pos: usize = line_start;
    let mut j: usize = 0;
    let mut bpos: usize = 0;
    let mut found = false;
    let ghost mut ci: int = k;
    for c in it: text.chars()
        invariant
            it.seq() == cs,
            cs.len() <= total,
            bpos == byte_at(cs, j as int),
            byte_len(cs) == total,
            0 <= k <= cs.len(),
            byte_at(cs, k) == line_start,
            !found ==> (k <= ci && ci == if it.index() > k { it.index() as int } else { k }),
            !found ==> pos == byte_at(cs, ci),
            !found ==> forall|q: int| k <= q < ci ==> cs[q] != '\n',
            found ==> ci == next_newline(cs, k) && pos == byte_at(cs, ci) && k <= ci <= cs.len(),
            j == it.index(),
    {
        proof {
            lemma_byte_at_step(cs, j as int);
            lemma_byte_at_mono(cs, j + 1, cs.len() as int);
            lemma_byte_at_full(cs);
            if j < k {
                lemma_byte_at_mono(cs, j as int, k);
            } else {
                lemma_byte_at_mono(cs, k, j as int);
            }
        }
        let w = crate::text::char_width(c);
        if !found && bpos >= line_start {
            if c == '\n' {
                proof {
                    lemma_next_newline(cs, k, j as int);
                }
                found = true;
            } else {
                pos = pos + w;
                proof {
                    ci = j + 1;
                }
            }
        }
        bpos = bpos + w;
        j = j + 1;
    }
    proof {
        if !found {
            lemma_next_newline(cs, k, cs.len() as int);
        }
    }
    slice_chars(text, line_start, pos, Ghost(k), Ghost(ci))
}

proof fn lemma_next_newline_ge(cs: Seq<char>, a: int, b: int)
    requires
        0 <= a <= b <= cs.len(),
        forall|j: int| a <= j < b ==> cs[j] != '\n',
    ensures
        b <= next_newline(cs, a) <= cs.len(),
    decreases cs.len() - a,
{
    if a < cs.len() && cs[a] != '\n' {
        if a < b {
            lemma_next_newline_ge(cs, a + 1, b);
        } else {
            lemma_next_newline_ge(cs, a + 1, a + 1);
        }
    }
}

/// Line start found by `line_text_at` from a line-start byte offset.
proof fn lemma_line_text_at_line(cs: Seq<char>, l: int, r: Seq<char>)
    requires
        0 <= l < starts_of(cs, '\n').len(),
        exists|k: int|
            0 <= k <= cs.len() && byte_at(cs, k) == byte_at(cs, starts_of(cs, '\n')[l]) && r
                == cs.subrange(k, next_newline(cs, k)),
    ensures
        r == line_chars(cs, l),
{
    lemma_starts_shape(cs, '\n');
    let st = starts_of(cs, '\n');
    let k = choose|k: int|
        0 <= k <= cs.len() && byte_at(cs, k) == byte_at(cs, st[l]) && r == cs.subrange(k, next_newline(cs, k));
    if k < st[l] {
        lemma_byte_at_mono(cs, k, st[l]);
    } else if k > st[l] {
        lemma_byte_at_mono(cs, st[l], k);
    }
    lemma_line_end_is_next_newline(cs, l);
}

/// Editor `(line, char_col)` to byte offset by linear scan; same result as
/// [`LineIndex::line_col_to_byte`].
pub fn line_col_to_byte(text: &str, line: i32, col: i32) -> (r: usize)
    ensures
        r == line_col_to_byte_spec(text@, line, col),
{
    if text.is_empty() {
        return 0;
    }
    let ghost cs = text@;
    let ghost b = text.spec_bytes();
    let ghost st = starts_of(cs, '\n');
    proof {
        lemma_char_lines(cs);
        lemma_starts_shape(cs, '\n');
        lemma_starts_shape(b, 10u8);
        lemma_byte_at_full(cs);
    }
    let total = crate::text::str_byte_len(text);
    let target_line = i32_to_usize(line);
    let target_char_col = i32_to_usize(col);
    let line_start = match find_line_start(text, target_line) {
        Some(s) => s,
        None => {
            let bytes = text.as_bytes();
            let mut ls: usize = 0;
            let mut i: usize = 0;
            proof {
                assert(b.take(0) =~= Seq::<u8>::empty());
            }
            while i < bytes.len()
                invariant
                    b == bytes@,
                    i <= b.len(),
                    ls == starts_of(b.take(i as int), 10u8).last(),
                decreases b.len() - i,
            {
                proof {
                    assert(b.take(i + 1).drop_last() =~= b.take(i as int));
                    assert(b.take(i + 1).last() == b[i as int]);
                }
                if bytes[i] == 10u8 {
                    ls = i + 1;
                }
                i = i + 1;
            }
            proof {
                assert(b.take(i as int) =~= b);
            }
            ls
        },
    };
    let ghost l = min_int(clamp_nonneg(line), st.len() - 1);
    proof {
        assert(starts_of(b, 10u8)[l] == line_start);
        vstd::utf8::encode_utf8_valid_utf8(cs);
        lemma_byte_at_is_boundary(cs, st[l]);
    }
    let line_text = line_text_at(text, line_start);
    proof {
        lemma_line_text_at_line(cs, l, line_text@);
    }
    let byte_col = char_col_to_byte_offset(line_text, target_char_col);
    proof {
        let m = min_int(target_char_col as int, line_text@.len() as int);
        lemma_byte_at_subrange(cs, st[l], line_end_char(cs, l), m);
        lemma_byte_at_mono(cs, st[l] + m, cs.len() as int);
    }
    line_start + byte_col
}

/// Byte offset to editor `(line, char_col)` by linear scan; same result as
/// [`LineIndex::byte_to_line_col`].
#[verifier::rlimit(30)]
pub fn byte_to_line_col(text: &str, offset: usize) -> (r: CharLineCol)
    ensures
        (r.line, r.col) == byte_to_line_col_spec(text@, offset as int),
{
    if text.is_empty() {
        return CharLineCol::new(0, 0);
    }
    let ghost cs = text@;
    let ghost b = text.spec_bytes();
    let total = crate::text::str_byte_len(text);
    let clamped_offset = if offset < total { offset } else { total };
    let clamped_offset = floor_char_boundary(text, clamped_offset);
    let ghost k = char_index_at_byte(cs, offset as int);
    proof {
        lemma_chars_within(cs, min_int(offset as int, byte_len(cs) as int));
        lemma_byte_at_mono(cs, k, cs.len() as int);
        lemma_byte_at_full(cs);
    }
    let bytes = text.as_bytes();
    let mut line_number: usize = 0;
    let mut line_start: usize = 0;
    let mut i: usize = 0;
    proof {
        assert(b.take(0) =~= Seq::<u8>::empty());
    }
    while i < clamped_offset
        invariant
            b == bytes@,
            i <= clamped_offset <= b.len(),
            line_number + 1 == starts_of(b.take(i as int), 10u8).len(),
            line_number <= i,
            line_start == starts_of(b.take(i as int), 10u8).last(),
        decreases clamped_offset - i,
    {
        proof {
            assert(b.take(i + 1).drop_last() =~= b.take(i as int));
            assert(b.take(i + 1).last() == b[i as int]);
            crate::lines::lemma_starts_shape(b.take(i as int), 10u8);
        }
        if bytes[i] == 10u8 {
            line_number = line_number + 1;
            line_start = i + 1;
        }
        i = i + 1;
    }
    let ghost t = cs.take(k);
    let ghost tk = starts_of(t, '\n');
    proof {
        crate::text::lemma_encode_subrange(cs, 0, k);
        assert(cs.subrange(0, k) =~= t);
        assert(cs.take(0) =~= Seq::<char>::empty());
        assert(b.take(i as int) =~= encode_utf8(t));
        lemma_starts_encode(t);
        lemma_starts_shape(t, '\n');
        let sk = tk.last();
        assert(line_start == byte_at(t, sk));
        assert(t.take(sk) =~= cs.take(sk));
        // no newline between the last line start and k
        assert forall|j: int| sk <= j < k implies cs[j] != '\n' by {
            if cs[j] == '\n' {
                assert(t[j] == cs[j]);
                crate::lines::lemma_starts_complete(t, '\n', j);
                let q = choose|q: int| 0 <= q < tk.len() && tk[q] == j + 1;
                assert(tk[q] <= tk[tk.len() - 1]);
            }
        }
        lemma_next_newline_ge(cs, sk, k);
        vstd::utf8::encode_utf8_valid_utf8(cs);
        lemma_byte_at_is_boundary(cs, sk);
        lemma_byte_at_mono(cs, sk, k);
    }
    let byte_col_in_line = clamped_offset - line_start;
    let line_text = line_text_at(text, line_start);
    proof {
        let sk = tk.last();
        let kk = choose|kk: int|
            0 <= kk <= cs.len() && byte_at(cs, kk) == line_start && line_text@ == cs.subrange(kk, next_newline(cs, kk));
        if kk < sk {
            lemma_byte_at_mono(cs, kk, sk);
        } else if kk > sk {
            lemma_byte_at_mono(cs, sk, kk);
        }
        let e = next_newline(cs, sk);
        let sub = cs.subrange(sk, e);
        lemma_byte_at_subrange(cs, sk, e, k - sk);
        lemma_byte_at_is_boundary(sub, k - sk);
        lemma_byte_at_mono(sub, k - sk, sub.len() as int);
        lemma_byte_at_full(sub);
    }
    let char_col = byte_offset_to_char_col(line_text, byte_col_in_line);
    proof {
        let sk = tk.last();
        let sub = line_text@;
        let j = k - sk;
        if (char_col as int) < j {
            lemma_byte_at_mono(sub, char_col as int, j);
        } else if (char_col as int) > j {
            lemma_byte_at_mono(sub, j, char_col as int);
        }
    }
    CharLineCol::new(usize_to_i32(line_number), usize_to_i32(char_col))
}

/// Godot character column (Unicode scalars) to grapheme column
/// (user-perceived characters) within `line_text`.
pub fn char_col_to_grapheme_col(line_text: &str, char_col: usize) -> (r: usize)
    ensures
        r == clusters_covering(grapheme_clusters(line_text@), char_col as int),
        r <= char_col,
{
    let gs = graphemes_of(line_text);
    let ghost g = views(gs@);
    let mut chars_seen: usize = 0;
    let mut grapheme_col: usize = 0;
    let mut i: usize = 0;
    proof {
        lemma_clusters_covering_le(g, char_col as int);
        assert(g.skip(0) =~= g);
        assert(g.take(0) =~= Seq::<Seq<char>>::empty());
        assert(g.take(0).flatten() =~= Seq::<char>::empty());
        crate::text::lemma_byte_at_mono(line_text@, 0, line_text@.len() as int);
        crate::text::lemma_byte_at_full(line_text@);
    }
    let _ = crate::text::str_byte_len(line_text);
    while i < gs.len() && chars_seen < char_col
        invariant
            g == views(gs@),
            g == grapheme_clusters(line_text@),
            g.flatten() == line_text@,
            line_text@.len() <= usize::MAX,
            i <= gs@.len(),
            grapheme_col == i,
            chars_seen == g.take(i as int).flatten().len(),
            clusters_covering(g, char_col as int) == i + clusters_covering(
                g.skip(i as int),
                char_col - chars_seen,
            ),
        decreases gs@.len() - i,
    {
        let n = char_count(gs[i]);
        proof {
            lemma_flatten_take_step(g, i as int);
            assert(g[i as int] == gs@[i as int]@);
            assert(g.skip(i as int).drop_first() =~= g.skip(i + 1));
            assert(g.skip(i as int)[0] == g[i as int]);
            lemma_flatten_take(g, i + 1);
        }
        chars_seen = chars_seen + n;
        grapheme_col = grapheme_col + 1;
        i = i + 1;
    }
    proof {
        if chars_seen < char_col {
            assert(g.skip(i as int).len() == 0);
        }
    }
    grapheme_col
}

impl Clone for LineIndex {
    fn clone(&self) -> (r: Self)
        ensures
            r.starts() == self.starts(),
            r.len_spec() == self.len_spec(),
    {
        proof {
            use_type_invariant(self);
        }
        let mut line_starts: Vec<usize> = Vec::new();
        let mut i: usize = 0;
        while i < self.line_starts.len()
            invariant
                i <= self.line_starts@.len(),
                line_starts@ == self.line_starts@.take(i as int),
            decreases self.line_starts@.len() - i,
        {
            line_starts.push(self.line_starts[i]);
            i = i + 1;
            assert(line_starts@ =~= self.line_starts@.take(i as int));
        }
        assert(line_starts@ =~= self.line_starts@);
        LineIndex { line_starts, text_len: self.text_len }
    }
}

impl LineIndex {
    /// Line start offsets.
    pub closed spec fn starts(&self) -> Seq<int> {
        ints(self.line_starts@)
    }

    /// Byte length recorded for the indexed text.
    pub closed spec fn len_spec(&self) -> int {
        self.text_len as int
    }

    #[verifier::type_invariant]
    spec fn inv(&self) -> bool {
        &&& self.line_starts@.len() >= 1
        &&& self.line_starts@[0] == 0
        &&& strictly_increasing(self.starts())
    }

    /// This index is exactly the one built from the bytes `b`.
    pub open spec fn describes(&self, b: Seq<u8>) -> bool {
        &&& self.starts() == starts_of(b, 10u8)
        &&& self.len_spec() == b.len()
    }

    /// An index is determined by the text it describes: an index updated
    /// by edits is the one built afresh from the edited text.
    pub proof fn lemma_same_text_same_index(&self, other: &Self, b: Seq<u8>)
        requires
            self.describes(b),
            other.describes(b),
        ensures
            self.starts() == other.starts(),
            self.len_spec() == other.len_spec(),
    {
    }

    /// Build the index of `text`.
    pub fn new(text: &str) -> (r: Self)
        ensures
            r.describes(text.spec_bytes()),
    {
        let bytes = text.as_bytes();
        let mut line_starts: Vec<usize> = Vec::new();
        line_starts.push(0);
        let mut i: usize = 0;
        proof {
            assert(bytes@.take(0) =~= Seq::<u8>::empty());
        }
        while i < bytes.len()
            invariant
                i <= bytes@.len(),
                ints(line_starts@) == starts_of(bytes@.take(i as int), 10u8),
            decreases bytes@.len() - i,
        {
            proof {
                assert(bytes@.take(i + 1).drop_last() =~= bytes@.take(i as int));
            }
            if bytes[i] == 10u8 {
                proof { lemma_ints_push(line_starts@, (i + 1) as usize); }
                line_starts.push(i + 1);
            }
            i = i + 1;
            assert(ints(line_starts@) =~= starts_of(bytes@.take(i as int), 10u8));
        }
        proof {
            assert(bytes@.take(i as int) =~= bytes@);
            lemma_starts_shape(bytes@, 10u8);
        }
        LineIndex { line_starts, text_len: text.len() }
    }

    /// Number of lines.
    pub fn line_count(&self) -> (r: usize)
        ensures
            r == self.starts().len(),
    {
        self.line_starts.len()
    }

    /// Recorded byte length of the text.
    pub fn text_len(&self) -> (r: usize)
        ensures
            r == self.len_spec(),
    {
        self.text_len
    }

    /// Byte offset at which `target_line` starts, if that line exists.
    pub fn line_start(&self, target_line: usize) -> (r: Option<usize>)
        ensures
            target_line < self.starts().len() ==> r == Some(self.starts()[target_line as int] as usize),
            target_line >= self.starts().len() ==> r.is_none(),
    {
        if target_line < self.line_starts.len() {
            Some(self.line_starts[target_line])
        } else {
            None
        }
    }

    /// Exclusive end offset of `target_line`: the offset of its `\n`, or the
    /// text length for the last line.
    pub fn line_end(&self, target_line: usize) -> (r: usize)
        ensures
            target_line + 1 < self.starts().len() ==> r == self.starts()[target_line + 1] - 1,
            target_line + 1 >= self.starts().len() ==> r == self.len_spec(),
    {
        proof {
            use_type_invariant(self);
        }
        if target_line < self.line_starts.len() - 1 {
            proof {
                assert(self.starts()[0] < self.starts()[target_line + 1]);
            }
            self.line_starts[target_line + 1] - 1
        } else {
            self.text_len
        }
    }

    /// Line content (without its `\n`) of `line_number`; empty for a line
    /// that does not exist.
    pub fn line_text_at<'a>(&self, text: &'a str, line_number: usize) -> (r: &'a str)
        requires
            self.describes(text.spec_bytes()),
        ensures
            line_number < self.starts().len() ==> r@ == line_chars(text@, line_number as int),
            line_number >= self.starts().len() ==> r@ == Seq::<char>::empty(),
    {
        proof {
            use_type_invariant(self);
            lemma_char_lines(text@);
            lemma_byte_at_full(text@);
        }
        if line_number >= self.line_starts.len() {
            proof {
                reveal_strlit("");
            }
            return "";
        }
        let start = self.line_starts[line_number];
        let end = self.line_end(line_number);
        let ghost cs = text@;
        let ghost st = starts_of(cs, '\n');
        assert(start == self.starts()[line_number as int]);
        slice_chars(text, start, end, Ghost(st[line_number as int]), Ghost(line_end_char(cs, line_number as int)))
    }

    /// Number of characters on `line_number` (0 for a line that does not exist).
    pub fn line_char_count(&self, text: &str, line_number: usize) -> (r: usize)
        requires
            self.describes(text.spec_bytes()),
        ensures
            line_number < self.starts().len() ==> r == line_chars(text@, line_number as int).len(),
            line_number >= self.starts().len() ==> r == 0,
    {
        char_count(self.line_text_at(text, line_number))
    }

    /// Editor `(line, char_col)` to byte offset. Negative values clamp to 0,
    /// a line past the end to the last line, a column past the end of its
    /// line to the line end.
    pub fn line_col_to_byte(&self, text: &str, line: i32, col: i32) -> (r: usize)
        requires
            self.describes(text.spec_bytes()),
        ensures
            r == line_col_to_byte_spec(text@, line, col),
    {
        if text.is_empty() {
            return 0;
        }
        proof {
            use_type_invariant(self);
            lemma_char_lines(text@);
            lemma_byte_at_full(text@);
        }
        let total = crate::text::str_byte_len(text);
        let target_line = i32_to_usize(line);
        let target_char_col = i32_to_usize(col);
        let last = self.line_starts.len() - 1;
        let clamped_line = if target_line < last { target_line } else { last };
        let line_start = self.line_starts[clamped_line];
        let line_text = self.line_text_at(text, clamped_line);
        let byte_col = char_col_to_byte_offset(line_text, target_char_col);
        proof {
            let cs = text@;
            let st = starts_of(cs, '\n');
            let l = clamped_line as int;
            let m = min_int(target_char_col as int, line_text@.len() as int);
            assert(self.starts()[l] == line_start as int);
            assert(starts_of(encode_utf8(cs), 10u8)[l] == byte_at(cs, st[l]));
            assert(line_start == byte_at(cs, st[l]));
            lemma_byte_at_subrange(cs, st[l], line_end_char(cs, l), m);
            lemma_byte_at_mono(cs, st[l] + m, cs.len() as int);
        }
        line_start + byte_col
    }

    /// Byte offset to editor `(line, char_col)`. The offset clamps to the
    /// text length and moves down to the start of the character it falls in.
    pub fn byte_to_line_col(&self, text: &str, offset: usize) -> (r: CharLineCol)
        requires
            self.describes(text.spec_bytes()),
        ensures
            (r.line, r.col) == byte_to_line_col_spec(text@, offset as int),
    {
        if text.is_empty() {
            return CharLineCol::new(0, 0);
        }
        proof {
            use_type_invariant(self);
            lemma_char_lines(text@);
            lemma_byte_at_full(text@);
        }
        let ghost cs = text@;
        let ghost st = starts_of(cs, '\n');
        let clamped_offset = if offset < self.text_len { offset } else { self.text_len };
        let clamped_offset = floor_char_boundary(text, clamped_offset);
        let ghost k = char_index_at_byte(cs, offset as int);
        proof {
            lemma_chars_within(cs, min_int(offset as int, byte_len(cs) as int));
            lemma_starts_prefix(cs, k, '\n');
            lemma_starts_shape(cs, '\n');
            let c = starts_of(cs.take(k), '\n').len() as int;
            assert forall|i: int| 0 <= i < c implies #[trigger] self.starts()[i] <= clamped_offset by {
                lemma_byte_at_mono(cs, st[i], k);
            }
            assert forall|i: int| c <= i < self.starts().len() implies #[trigger] self.starts()[i] > clamped_offset by {
                lemma_byte_at_mono(cs, k, st[i]);
            }
            lemma_count_le_unique(self.starts(), clamped_offset as int, c);
            lemma_starts_shape(cs.take(k), '\n');
        }
        let line_number = count_le_exec(&self.line_starts, clamped_offset) - 1;
        let line_start = self.line_starts[line_number];
        proof {
            let l = line_number as int;
            assert(self.starts()[l] == line_start as int);
            assert(starts_of(encode_utf8(cs), 10u8)[l] == byte_at(cs, st[l]));
        }
        let byte_col_in_line = clamped_offset - line_start;
        let line_text = self.line_text_at(text, line_number);
        proof {
            let l = line_number as int;
            let c = l + 1;
            assert(st[l] == starts_of(cs.take(k), '\n').last());
            assert(st[l] <= k);
            let e = line_end_char(cs, l);
            if l + 1 < st.len() {
                assert(st[l + 1] > k);
            }
            assert(k <= e);
            let sub = cs.subrange(st[l], e);
            lemma_byte_at_subrange(cs, st[l], e, k - st[l]);
            lemma_byte_at_mono(cs, st[l], k);
            lemma_byte_at_is_boundary(sub, k - st[l]);
            lemma_byte_at_mono(sub, k - st[l], sub.len() as int);
            lemma_byte_at_full(sub);
        }
        let char_col = byte_offset_to_char_col(line_text, byte_col_in_line);
        proof {
            let l = line_number as int;
            let sub = line_text@;
            let j = k - st[l];
            if (char_col as int) < j {
                lemma_byte_at_mono(sub, char_col as int, j);
            } else if (char_col as int) > j {
                lemma_byte_at_mono(sub, j, char_col as int);
            }
        }
        CharLineCol::new(usize_to_i32(line_number), usize_to_i32(char_col))
    }

    /// Byte offset to `(line, grapheme column)`; `None` when the offset lies
    /// past the end of the text or inside a character.
    pub fn offset_to_line_col(&self, text: &str, offset: usize) -> (r: Option<GraphemeLineCol>)
        requires
            self.describes(text.spec_bytes()),
        ensures
            ({
                let cs = text@;
                let k = char_index_at_byte(cs, offset as int);
                if offset > byte_len(cs) || !is_char_boundary(encode_utf8(cs), offset as int) {
                    r.is_none()
                } else {
                    r == Some(
                        GraphemeLineCol {
                            line: sat_i32(line_of_char(cs, k)),
                            col: sat_i32(
                                grapheme_clusters(
                                    cs.subrange(starts_of(cs.take(k), '\n').last(), k),
                                ).len() as int,
                            ),
                        },
                    )
                }
            }),
    {
        if offset > self.text_len {
            return None;
        }
        proof {
            use_type_invariant(self);
            lemma_char_lines(text@);
            lemma_byte_at_full(text@);
        }
        let ghost cs = text@;
        let ghost st = starts_of(cs, '\n');
        let c = count_le_exec(&self.line_starts, offset);
        proof {
            lemma_count_le(self.starts(), offset as int);
            assert(self.starts()[0] == 0);
        }
        let line = c - 1;
        let line_start = self.line_starts[line];
        if !text.is_char_boundary(offset) {
            return None;
        }
        let ghost k = char_index_at_byte(cs, offset as int);
        proof {
            let kk = lemma_boundary_is_byte_at(cs, offset as int);
            if kk < cs.len() {
                lemma_byte_at_step(cs, kk);
                crate::text::lemma_width_bounds(cs[kk]);
            }
            lemma_chars_within_unique(cs, offset as int, kk);
            lemma_starts_prefix(cs, k, '\n');
            lemma_starts_shape(cs, '\n');
            let c = starts_of(cs.take(k), '\n').len() as int;
            assert forall|i: int| 0 <= i < c implies #[trigger] self.starts()[i] <= offset by {
                lemma_byte_at_mono(cs, st[i], k);
            }
            assert forall|i: int| c <= i < self.starts().len() implies #[trigger] self.starts()[i] > offset by {
                lemma_byte_at_mono(cs, k, st[i]);
            }
            lemma_count_le_unique(self.starts(), offset as int, c);
            lemma_starts_shape(cs.take(k), '\n');
            let l = line as int;
            assert(self.starts()[l] == line_start as int);
            assert(st[l] == starts_of(cs.take(k), '\n').last());
            lemma_byte_at_mono(cs, st[l], k);
        }
        let piece = slice_chars(text, line_start, offset, Ghost(st[line as int]), Ghost(k));
        let col = graphemes_of(piece).len();
        Some(GraphemeLineCol::new(usize_to_i32(line), usize_to_i32(col)))
    }

    /// `(line, grapheme column)` to byte offset; a column past the end of the
    /// line clamps to the line end. `None` for a line that does not exist.
    pub fn line_col_to_offset(&self, text: &str, line: usize, col: usize) -> (r: Option<usize>)
        requires
            self.describes(text.spec_bytes()),
        ensures
            line >= self.starts().len() ==> r.is_none(),
            line < self.starts().len() ==> ({
                let gs = grapheme_clusters(line_chars(text@, line as int));
                let m = min_int(col as int, gs.len() as int);
                &&& r is Some
                &&& r->0 == byte_at(
                    text@,
                    starts_of(text@, '\n')[line as int] + gs.take(m).flatten().len(),
                )
            }),
    {
        if line >= self.line_starts.len() {
            return None;
        }
        proof {
            use_type_invariant(self);
            lemma_char_lines(text@);
            lemma_byte_at_full(text@);
        }
        let ghost cs = text@;
        let ghost st = starts_of(cs, '\n');
        let ghost l = line as int;
        let line_start = self.line_starts[line];
        let line_text = self.line_text_at(text, line);
        let gv = graphemes_of(line_text);
        let ghost g = views(gv@);
        let ghost e = line_end_char(cs, l);
        proof {
            assert(self.starts()[l] == line_start as int);
        }
        let mut byte_offset = line_start;
        let mut i: usize = 0;
        proof {
            assert(g.take(0) =~= Seq::<Seq<char>>::empty());
            assert(g.take(0).flatten() =~= Seq::<char>::empty());
            lemma_byte_at_subrange(cs, st[l], e, 0);
        }
        while i < gv.len()
            invariant
                (line as int) < self.starts().len(),
                cs == text@,
                st == starts_of(cs, '\n'),
                l == line as int,
                e == line_end_char(cs, l),
                g == views(gv@),
                g == grapheme_clusters(line_text@),
                g.flatten() == line_text@,
                line_text@ == cs.subrange(st[l], e),
                0 <= st[l] <= e <= cs.len(),
                i <= gv@.len(),
                i <= col,
                byte_len(cs) <= usize::MAX,
                byte_offset == byte_at(cs, st[l] + g.take(i as int).flatten().len()),
                g.take(i as int).flatten().len() <= e - st[l],
            decreases gv@.len() - i,
        {
            if i == col {
                proof {
                    assert(min_int(col as int, g.len() as int) == i);
                }
                return Some(byte_offset);
            }
            let glen = crate::text::str_byte_len(gv[i]);
            proof {
                let a = g.take(i as int).flatten().len() as int;
                lemma_flatten_take_step(g, i as int);
                assert(g[i as int] == gv@[i as int]@);
                lemma_flatten_take(g, i + 1);
                lemma_flatten_take(g, i as int);
                let b = g.take(i + 1).flatten().len() as int;
                let sub = cs.subrange(st[l], e);
                assert(g.take(i + 1).flatten() == sub.take(b));
                assert(g.take(i as int).flatten() == sub.take(a));
                assert(sub.take(b) == sub.take(a) + g[i as int]);
                assert(b == a + g[i as int].len());
                assert forall|j: int| 0 <= j < b - a implies #[trigger] sub.subrange(a, b)[j] == g[i as int][j] by {
                    assert(sub.take(b)[a + j] == (sub.take(a) + g[i as int])[a + j]);
                }
                crate::text::lemma_encode_subrange(sub, a, b);
                assert(sub.subrange(a, b) =~= g[i as int]);
                lemma_byte_at_subrange(cs, st[l], e, a);
                lemma_byte_at_subrange(cs, st[l], e, b);
                lemma_byte_at_mono(cs, st[l] + b, cs.len() as int);
                lemma_byte_at_full(cs);
                assert(glen == byte_len(g[i as int]));
            }
            byte_offset = byte_offset + glen;
            i = i + 1;
        }
        proof {
            assert(g.take(i as int) =~= g);
            assert(min_int(col as int, g.len() as int) == g.len());
        }
        Some(byte_offset)
    }

    /// Update the index after `new_text` was inserted at byte `offset`.
    ///
    /// Line starts after the insertion point move by the inserted length, and
    /// each newline of `new_text` adds a line start.
    pub fn apply_insert(&mut self, offset: usize, new_text: &str)
        requires
            old(self).len_spec() + new_text.spec_bytes().len() <= usize::MAX,
            offset + new_text.spec_bytes().len() <= usize::MAX,
            old(self).starts().last() + new_text.spec_bytes().len() <= usize::MAX,
        ensures
            ({
                let s = old(self).starts();
                let n = new_text.spec_bytes().len() as int;
                let c = count_le(s, offset as int);
                &&& final(self).starts() == s.take(c) + shift(
                    starts_of(new_text.spec_bytes(), 10u8).drop_first(),
                    offset as int,
                ) + shift(s.skip(c), n)
                &&& final(self).len_spec() == old(self).len_spec() + n
            }),
            forall|b: Seq<u8>|
                #![trigger old(self).describes(b)]
                old(self).describes(b) && offset <= b.len() ==> final(self).describes(
                    b.take(offset as int) + new_text.spec_bytes() + b.skip(offset as int),
                ),
    {
        proof {
            use_type_invariant(&*self);
        }
        let ghost s = self.starts();
        let nb = new_text.as_bytes();
        let new_bytes = nb.len();
        let ghost nl = starts_of(nb@, 10u8);
        proof {
            lemma_starts_shape(nb@, 10u8);
            lemma_count_le(s, offset as int);
            assert(s[0] == 0);
        }
        let c = count_le_exec(&self.line_starts, offset);
        let mut res: Vec<usize> = Vec::new();
        let mut j: usize = 0;
        while j < c
            invariant
                j <= c <= s.len(),
                s == ints(self.line_starts@),
                ints(res@) == s.take(j as int),
            decreases c - j,
        {
            let v = self.line_starts[j];
            assert(s[j as int] == v as int);
            proof { lemma_ints_push(res@, v); }
            res.push(v);
            j = j + 1;
            assert(ints(res@) =~= s.take(j as int));
        }
        let mut i: usize = 0;
        let mut k: Ghost<int> = Ghost(1);
        while i < new_bytes
            invariant
                i <= nb@.len(),
                new_bytes == nb@.len(),
                offset + new_bytes <= usize::MAX,
                nl == starts_of(nb@, 10u8),
                1 <= k@ <= nl.len(),
                nl == starts_of(nb@.take(i as int), 10u8) + nl.skip(k@),
                forall|q: int| k@ <= q < nl.len() ==> #[trigger] nl[q] > i,
                ints(res@) == s.take(c as int) + shift(
                    nl.subrange(1, k@),
                    offset as int,
                ),
            decreases nb@.len() - i,
        {
            proof {
                lemma_starts_prefix(nb@, i + 1, 10u8);
                lemma_starts_prefix(nb@, i as int, 10u8);
                assert(nb@.take(i + 1).drop_last() =~= nb@.take(i as int));
                lemma_starts_shape(nb@, 10u8);
            }
            if nb[i] == 10u8 {
                proof { lemma_ints_push(res@, (offset + i + 1) as usize); }
                res.push(offset + i + 1);
                proof {
                    assert(nl[k@] == i + 1) by {
                        assert(starts_of(nb@.take(i + 1), 10u8) == starts_of(nb@.take(i as int), 10u8).push(i + 1));
                        assert(nl.take(starts_of(nb@.take(i + 1), 10u8).len() as int) == starts_of(nb@.take(i + 1), 10u8));
                    }
                    assert(shift(nl.subrange(1, k@ + 1), offset as int) =~= shift(nl.subrange(1, k@), offset as int).push(offset + i + 1));
                    assert(s.take(c as int) + shift(nl.subrange(1, k@ + 1), offset as int) =~= (s.take(c as int) + shift(nl.subrange(1, k@), offset as int)).push(offset + i + 1));
                    k@ = k@ + 1;
                    assert(nl =~= starts_of(nb@.take(i + 1), 10u8) + nl.skip(k@));
                }
            } else {
                proof {
                    assert(starts_of(nb@.take(i + 1), 10u8) == starts_of(nb@.take(i as int), 10u8));
                }
            }
            i = i + 1;
            assert(ints(res@) =~= s.take(c as int) + shift(nl.subrange(1, k@), offset as int));
        }
        proof {
            assert(nb@.take(i as int) =~= nb@);
            assert(nl.skip(k@).len() == 0);
            assert(k@ == nl.len());
            assert(nl.subrange(1, k@) =~= nl.drop_first());
        }
        let ghost mid = ints(res@);
        let mut j: usize = c;
        while j < self.line_starts.len()
            invariant
                c <= j <= s.len(),
                s == ints(self.line_starts@),
                strictly_increasing(s),
                s.last() + new_bytes <= usize::MAX,
                ints(res@) == mid + shift(s.subrange(c as int, j as int), new_bytes as int),
            decreases s.len() - j,
        {
            proof {
                if j < s.len() - 1 {
                    assert(s[j as int] < s[s.len() - 1]);
                }
            }
            let v = self.line_starts[j];
            assert(s[j as int] == v as int);
            proof { lemma_ints_push(res@, (v + new_bytes) as usize); }
            res.push(v + new_bytes);
            j = j + 1;
            assert(ints(res@) =~= mid + shift(s.subrange(c as int, j as int), new_bytes as int));
        }
        proof {
            assert(s.subrange(c as int, j as int) =~= s.skip(c as int));
            let r = ints(res@);
            // the result is still strictly increasing
            assert(r.len() >= 1);
            assert(r[0] == 0) by {
                assert(r[0] == s[0]);
            }
            assert forall|a: int, b: int| 0 <= a < b < r.len() implies r[a] < r[b] by {
                let l1 = c as int;
                let l2 = l1 + nl.len() - 1;
                if b < l1 {
                } else if a < l1 && b < l2 {
                    assert(r[a] == s[a]);
                    assert(r[b] == nl[b - l1 + 1] + offset);
                    assert(s[a] <= offset);
                } else if a < l1 {
                    assert(r[b] == s[b - l2 + l1] + new_bytes);
                    assert(s[a] < s[b - l2 + l1]);
                } else if b < l2 {
                    assert(nl[a - l1 + 1] < nl[b - l1 + 1]);
                } else if a < l2 {
                    assert(r[a] == nl[a - l1 + 1] + offset);
                    assert(nl[a - l1 + 1] <= new_bytes);
                    assert(s[b - l2 + l1] > offset);
                } else {
                    assert(s[a - l2 + l1] < s[b - l2 + l1]);
                }
            }
        }
        proof {
            assert(res@[0] == 0);
        }
        self.line_starts = res;
        self.text_len = self.text_len + new_bytes;
        proof {
            assert forall|b: Seq<u8>|
                #![trigger old(self).describes(b)]
                old(self).describes(b) && offset <= b.len()
                implies self.describes(b.take(offset as int) + nb@ + b.skip(offset as int)) by {
                let p = b.take(offset as int);
                let q = b.skip(offset as int);
                lemma_starts_prefix(b, offset as int, 10u8);
                lemma_starts_shape(b, 10u8);
                lemma_count_le_unique(s, offset as int, starts_of(p, 10u8).len() as int);
                lemma_starts_concat(p, nb@, 10u8);
                lemma_starts_concat(p + nb@, q, 10u8);
                assert(shift(s.skip(c as int), new_bytes as int) =~= shift(
                    starts_of(q, 10u8).drop_first(),
                    offset + new_bytes,
                ));
                assert(s.take(c as int) == starts_of(p, 10u8));
                assert(self.starts() =~= starts_of(p + nb@ + q, 10u8));
            }
        }
    }
    /// Update the index after the bytes `[start, end)` were deleted.
    ///
    /// Line starts inside the deleted range disappear; later ones move back
    /// by the deleted length.
    pub fn apply_delete(&mut self, start: usize, end: usize)
        requires
            start < end ==> end - start <= old(self).len_spec(),
        ensures
            start >= end ==> final(self).starts() == old(self).starts() && final(self).len_spec()
                == old(self).len_spec(),
            start < end ==> ({
                let s = old(self).starts();
                &&& final(self).starts() == s.take(count_le(s, start as int)) + shift(
                    s.skip(count_le(s, end as int)),
                    start - end,
                )
                &&& final(self).len_spec() == old(self).len_spec() - (end - start)
            }),
            forall|b: Seq<u8>|
                #![trigger old(self).describes(b)]
                old(self).describes(b) && start < end <= b.len() ==> final(self).describes(
                    b.take(start as int) + b.skip(end as int),
                ),
    {
        if start >= end {
            return;
        }
        proof {
            use_type_invariant(&*self);
        }
        let ghost s = self.starts();
        let removed = end - start;
        proof {
            lemma_count_le(s, start as int);
            lemma_count_le(s, end as int);
            assert(s[0] == 0);
        }
        let first = count_le_exec(&self.line_starts, start);
        let last = count_le_exec(&self.line_starts, end);
        proof {
            if last < first {
                assert(s[last as int] > end);
                assert(s[last as int] <= start);
            }
        }
        let mut res: Vec<usize> = Vec::new();
        let mut j: usize = 0;
        while j < first
            invariant
                j <= first <= s.len(),
                s == ints(self.line_starts@),
                ints(res@) == s.take(j as int),
            decreases first - j,
        {
            let v = self.line_starts[j];
            assert(s[j as int] == v as int);
            proof { lemma_ints_push(res@, v); }
            res.push(v);
            j = j + 1;
            assert(ints(res@) =~= s.take(j as int));
        }
        let mut j: usize = last;
        while j < self.line_starts.len()
            invariant
                first <= last <= j <= s.len(),
                s == ints(self.line_starts@),
                last == count_le(s, end as int),
                forall|i: int| last <= i < s.len() ==> #[trigger] s[i] > end,
                removed == end - start,
                ints(res@) == s.take(first as int) + shift(s.subrange(last as int, j as int), start - end),
            decreases s.len() - j,
        {
            let v = self.line_starts[j];
            assert(s[j as int] == v as int);
            assert(s[j as int] > end);
            proof { lemma_ints_push(res@, (v - removed) as usize); }
            res.push(v - removed);
            j = j + 1;
            assert(ints(res@) =~= s.take(first as int) + shift(s.subrange(last as int, j as int), start - end));
        }
        proof {
            assert(s.subrange(last as int, j as int) =~= s.skip(last as int));
            let r = ints(res@);
            assert(r[0] == 0) by {
                assert(first >= 1);
                assert(r[0] == s[0]);
            }
            assert forall|a: int, b: int| 0 <= a < b < r.len() implies r[a] < r[b] by {
                let l1 = first as int;
                if b < l1 {
                } else if a < l1 {
                    assert(r[a] == s[a]);
                    assert(r[b] == s[b - l1 + last] - (end - start));
                    assert(s[b - l1 + last] > end);
                } else {
                    assert(s[a - l1 + last] < s[b - l1 + last]);
                }
            }
            assert(res@[0] == 0);
        }
        self.line_starts = res;
        self.text_len = self.text_len - removed;
        proof {
            assert forall|b: Seq<u8>|
                #![trigger old(self).describes(b)]
                old(self).describes(b) && start < end <= b.len()
                implies self.describes(b.take(start as int) + b.skip(end as int)) by {
                let p = b.take(start as int);
                let q = b.skip(end as int);
                lemma_starts_prefix(b, start as int, 10u8);
                lemma_starts_prefix(b, end as int, 10u8);
                lemma_starts_shape(b, 10u8);
                lemma_count_le_unique(s, start as int, starts_of(p, 10u8).len() as int);
                lemma_count_le_unique(s, end as int, starts_of(b.take(end as int), 10u8).len() as int);
                lemma_starts_concat(p, q, 10u8);
                assert(shift(s.skip(last as int), start - end) =~= shift(
                    starts_of(q, 10u8).drop_first(),
                    start as int,
                ));
                assert(self.starts() =~= starts_of(p + q, 10u8));
            }
        }
    }
}

/// A text borrowed together with its index, kept side by side so the two
/// are not separated.
#[derive(Debug, Clone, Copy)]
pub struct DocumentView<'a> {
    pub text: &'a str,
    pub line_index: &'a LineIndex,
}

impl<'a> DocumentView<'a> {
    pub fn new(text: &'a str, line_index: &'a LineIndex) -> (r: Self)
        ensures
            r.text == text,
            r.line_index == line_index,
    {
        DocumentView { text, line_index }
    }

    /// The index describes the text.
    pub open spec fn wf(&self) -> bool {
        self.line_index.describes(self.text.spec_bytes())
    }
}

} // verus!
