//! Reconciliation of external text changes (input method commits,
//! completion, find-and-replace): the edit envelope between two texts, by
//! common prefix and common suffix, and its split into separate edit sites.

use crate::text::lemma_shared_prefix_boundary;
use crate::text::substr_bytes;
use vstd::prelude::*;
use vstd::string::StringSliceAdditionalSpecFns;
use vstd::utf8::*;

verus! {

broadcast use vstd::seq::group_seq_axioms;

pub open spec fn min_of(a: int, b: int) -> int {
    if a <= b {
        a
    } else {
        b
    }
}

/// `a - b`, or 0 when `b` exceeds `a`.
pub open spec fn sat_sub(a: int, b: int) -> int {
    if a >= b {
        a - b
    } else {
        0
    }
}

/// Length of the longest common prefix of `x` and `y`.
pub open spec fn common_prefix_len(x: Seq<u8>, y: Seq<u8>) -> nat
    decreases x.len(),
{
    if x.len() == 0 || y.len() == 0 || x[0] != y[0] {
        0
    } else {
        1 + common_prefix_len(x.drop_first(), y.drop_first())
    }
}

/// Length of the longest common suffix of `x` and `y`.
pub open spec fn common_suffix_len(x: Seq<u8>, y: Seq<u8>) -> nat
    decreases x.len(),
{
    if x.len() == 0 || y.len() == 0 || x.last() != y.last() {
        0
    } else {
        1 + common_suffix_len(x.drop_last(), y.drop_last())
    }
}

pub proof fn lemma_common_prefix(x: Seq<u8>, y: Seq<u8>)
    ensures
        common_prefix_len(x, y) <= x.len(),
        common_prefix_len(x, y) <= y.len(),
        forall|i: int| 0 <= i < common_prefix_len(x, y) ==> #[trigger] x[i] == y[i],
        common_prefix_len(x, y) < x.len() && common_prefix_len(x, y) < y.len() ==> x[common_prefix_len(
            x,
            y,
        ) as int] != y[common_prefix_len(x, y) as int],
    decreases x.len(),
{
    if x.len() > 0 && y.len() > 0 && x[0] == y[0] {
        lemma_common_prefix(x.drop_first(), y.drop_first());
        assert forall|i: int| 0 <= i < common_prefix_len(x, y) implies #[trigger] x[i] == y[i] by {
            if i > 0 {
                assert(x[i] == x.drop_first()[i - 1]);
                assert(y[i] == y.drop_first()[i - 1]);
            }
        }
    }
}

pub proof fn lemma_common_prefix_unique(x: Seq<u8>, y: Seq<u8>, n: int)
    requires
        0 <= n <= x.len(),
        n <= y.len(),
        forall|i: int| 0 <= i < n ==> #[trigger] x[i] == y[i],
        n < x.len() && n < y.len() ==> x[n] != y[n],
    ensures
        common_prefix_len(x, y) == n,
    decreases n,
{
    if n > 0 {
        let (dx, dy) = (x.drop_first(), y.drop_first());
        assert(x[0] == y[0]);
        assert forall|i: int| 0 <= i < n - 1 implies #[trigger] dx[i] == dy[i] by {
            assert(x[i + 1] == y[i + 1]);
        }
        lemma_common_prefix_unique(dx, dy, n - 1);
    }
}

pub proof fn lemma_common_suffix(x: Seq<u8>, y: Seq<u8>)
    ensures
        common_suffix_len(x, y) <= x.len(),
        common_suffix_len(x, y) <= y.len(),
        forall|k: int|
            0 <= k < common_suffix_len(x, y) ==> #[trigger] x[x.len() - 1 - k] == y[y.len() - 1 - k],
    decreases x.len(),
{
    if x.len() > 0 && y.len() > 0 && x.last() == y.last() {
        let (dx, dy) = (x.drop_last(), y.drop_last());
        lemma_common_suffix(dx, dy);
        assert forall|k: int| 0 <= k < common_suffix_len(x, y) implies #[trigger] x[x.len() - 1
            - k] == y[y.len() - 1 - k] by {
            if k > 0 {
                assert(dx[dx.len() - 1 - (k - 1)] == dy[dy.len() - 1 - (k - 1)]);
            }
        }
    }
}

pub proof fn lemma_common_suffix_unique(x: Seq<u8>, y: Seq<u8>, n: int)
    requires
        0 <= n <= x.len(),
        n <= y.len(),
        forall|k: int| 0 <= k < n ==> #[trigger] x[x.len() - 1 - k] == y[y.len() - 1 - k],
        n < x.len() && n < y.len() ==> x[x.len() - 1 - n] != y[y.len() - 1 - n],
    ensures
        common_suffix_len(x, y) == n,
    decreases n,
{
    if n > 0 {
        let (dx, dy) = (x.drop_last(), y.drop_last());
        assert(x[x.len() - 1 - 0] == y[y.len() - 1 - 0]);
        assert forall|k: int| 0 <= k < n - 1 implies #[trigger] dx[dx.len() - 1 - k] == dy[dy.len()
            - 1 - k] by {
            assert(x[x.len() - 1 - (k + 1)] == y[y.len() - 1 - (k + 1)]);
        }
        if n - 1 < dx.len() && n - 1 < dy.len() {
            assert(dx[dx.len() - 1 - (n - 1)] == x[x.len() - 1 - n]);
            assert(dy[dy.len() - 1 - (n - 1)] == y[y.len() - 1 - n]);
        }
        lemma_common_suffix_unique(dx, dy, n - 1);
    }
}

pub(crate) fn common_prefix(x: &[u8], y: &[u8]) -> (r: usize)
    ensures
        r == common_prefix_len(x@, y@),
{
    let mut i: usize = 0;
    while i < x.len() && i < y.len() && x[i] == y[i]
        invariant
            i <= x@.len(),
            i <= y@.len(),
            forall|q: int| 0 <= q < i ==> #[trigger] x@[q] == y@[q],
        decreases x@.len() - i,
    {
        i = i + 1;
    }
    proof {
        lemma_common_prefix_unique(x@, y@, i as int);
    }
    i
}

fn common_suffix(x: &[u8], y: &[u8]) -> (r: usize)
    ensures
        r == common_suffix_len(x@, y@),
{
    let mut k: usize = 0;
    while k < x.len() && k < y.len() && x[x.len() - 1 - k] == y[y.len() - 1 - k]
        invariant
            k <= x@.len(),
            k <= y@.len(),
            forall|q: int| 0 <= q < k ==> #[trigger] x@[x@.len() - 1 - q] == y@[y@.len() - 1 - q],
        decreases x@.len() - k,
    {
        k = k + 1;
    }
    proof {
        lemma_common_suffix_unique(x@, y@, k as int);
    }
    k
}

pub(crate) fn bytes_equal(x: &[u8], y: &[u8]) -> (r: bool)
    ensures
        r == (x@ == y@),
{
    if x.len() != y.len() {
        return false;
    }
    let n = common_prefix(x, y);
    proof {
        lemma_common_prefix(x@, y@);
        if n == x.len() {
            assert(x@ =~= y@);
        }
    }
    n == x.len()
}

/// The largest character boundary of `b` at or below `x`.
pub open spec fn snap_down(b: Seq<u8>, x: int) -> int
    decreases x,
{
    if x <= 0 {
        0
    } else if is_char_boundary(b, x) {
        x
    } else {
        snap_down(b, x - 1)
    }
}

/// The smallest character boundary of `b` at or above `x` (the end of `b`
/// at most).
pub open spec fn snap_up(b: Seq<u8>, x: int) -> int
    decreases b.len() - x,
{
    if x >= b.len() {
        b.len() as int
    } else if is_char_boundary(b, x) {
        x
    } else {
        snap_up(b, x + 1)
    }
}

pub proof fn lemma_snap_down(b: Seq<u8>, x: int)
    requires
        valid_utf8(b),
    ensures
        0 <= snap_down(b, x) <= if x > 0 { x } else { 0 },
        is_char_boundary(b, snap_down(b, x)),
        forall|q: int| snap_down(b, x) < q <= x ==> !#[trigger] is_char_boundary(b, q),
    decreases x,
{
    if x > 0 && !is_char_boundary(b, x) {
        lemma_snap_down(b, x - 1);
    }
}

pub proof fn lemma_snap_up(b: Seq<u8>, x: int)
    requires
        valid_utf8(b),
        0 <= x,
    ensures
        if x <= b.len() { x } else { b.len() as int } <= snap_up(b, x) <= b.len(),
        is_char_boundary(b, snap_up(b, x)),
        forall|q: int| x <= q < snap_up(b, x) ==> !#[trigger] is_char_boundary(b, q),
    decreases b.len() - x,
{
    is_char_boundary_start_end_of_seq(b);
    if x < b.len() && !is_char_boundary(b, x) {
        lemma_snap_up(b, x + 1);
    }
}

/// Snap a byte offset (clamped to the length) down to a character boundary.
pub fn snap_to_char_boundary_down(s: &str, offset: usize) -> (r: usize)
    ensures
        r == snap_down(s.spec_bytes(), min_of(offset as int, s.spec_bytes().len() as int)),
        r <= offset,
        r <= s.spec_bytes().len(),
        is_char_boundary(s.spec_bytes(), r as int),
        forall|q: int| r < q <= offset && q <= s.spec_bytes().len() ==> !#[trigger] is_char_boundary(
            s.spec_bytes(),
            q,
        ),
{
    let b = s.as_bytes();
    let m = if offset < b.len() {
        offset
    } else {
        b.len()
    };
    let mut pos = m;
    proof {
        encode_utf8_valid_utf8(s@);
    }
    while pos > 0 && !s.is_char_boundary(pos)
        invariant
            pos <= m,
            m == min_of(offset as int, s.spec_bytes().len() as int),
            snap_down(s.spec_bytes(), pos as int) == snap_down(s.spec_bytes(), m as int),
        decreases pos,
    {
        pos = pos - 1;
    }
    proof {
        lemma_snap_down(s.spec_bytes(), m as int);
    }
    pos
}

/// Snap a byte offset (clamped to the length) up to a character boundary.
pub fn snap_to_char_boundary_up(s: &str, offset: usize) -> (r: usize)
    ensures
        r == snap_up(s.spec_bytes(), min_of(offset as int, s.spec_bytes().len() as int)),
        min_of(offset as int, s.spec_bytes().len() as int) <= r <= s.spec_bytes().len(),
        is_char_boundary(s.spec_bytes(), r as int),
        forall|q: int| offset <= q < r ==> !#[trigger] is_char_boundary(s.spec_bytes(), q),
{
    let b = s.as_bytes();
    let m = if offset < b.len() {
        offset
    } else {
        b.len()
    };
    let mut pos = m;
    proof {
        encode_utf8_valid_utf8(s@);
    }
    while pos < b.len() && !s.is_char_boundary(pos)
        invariant
            m <= pos <= b@.len(),
            b@ == s.spec_bytes(),
            m == min_of(offset as int, s.spec_bytes().len() as int),
            snap_up(s.spec_bytes(), pos as int) == snap_up(s.spec_bytes(), m as int),
        decreases b@.len() - pos,
    {
        pos = pos + 1;
    }
    proof {
        lemma_snap_up(s.spec_bytes(), m as int);
    }
    pos
}

/// The envelope of the change from `b` to `a`, as
/// `(prefix, deleted_end, inserted_end)`: the common prefix is bounded by
/// the cursor and snapped down to a character boundary of `b`; the common
/// suffix is bounded by the bytes after the cursor and by what the prefix
/// leaves of `b`, and snapped to a character boundary of `b`. `None` when
/// the texts are equal or the two would overlap.
pub open spec fn diff_envelope(b: Seq<u8>, a: Seq<u8>, cursor: int) -> Option<(int, int, int)> {
    if b == a {
        None
    } else {
        let prefix = snap_down(b, min_of(common_prefix_len(b, a) as int, cursor));
        let max_suffix = min_of(sat_sub(a.len() as int, cursor), sat_sub(b.len() as int, prefix));
        let raw_suffix = min_of(common_suffix_len(b, a) as int, max_suffix);
        let suffix = b.len() - snap_up(b, b.len() - raw_suffix);
        let deleted_end = sat_sub(b.len() as int, suffix);
        let inserted_end = sat_sub(a.len() as int, suffix);
        if prefix > deleted_end || prefix > inserted_end {
            None
        } else {
            Some((prefix, deleted_end, inserted_end))
        }
    }
}

/// The envelope of two different valid texts exists; it keeps the common
/// prefix and suffix, and its ends are character boundaries of both texts.
pub proof fn lemma_diff_envelope(b: Seq<u8>, a: Seq<u8>, cursor: int)
    requires
        valid_utf8(b),
        valid_utf8(a),
        cursor >= 0,
    ensures
        diff_envelope(b, a, cursor).is_none() <==> b == a,
        diff_envelope(b, a, cursor) matches Some((p, d, i)) ==> {
            &&& 0 <= p <= d <= b.len()
            &&& p <= i <= a.len()
            &&& p <= cursor
            &&& b.len() - d == a.len() - i
            &&& b.take(p) == a.take(p)
            &&& b.skip(d) == a.skip(i)
            &&& is_char_boundary(b, p) && is_char_boundary(b, d)
            &&& is_char_boundary(a, p) && is_char_boundary(a, i)
        },
{
    if b != a {
        lemma_common_prefix(b, a);
        lemma_common_suffix(b, a);
        let lcp = common_prefix_len(b, a) as int;
        let lcs = common_suffix_len(b, a) as int;
        let raw_prefix = min_of(lcp, cursor);
        let prefix = snap_down(b, raw_prefix);
        lemma_snap_down(b, raw_prefix);
        let max_suffix = min_of(sat_sub(a.len() as int, cursor), sat_sub(b.len() as int, prefix));
        let raw_suffix = min_of(lcs, max_suffix);
        let up = snap_up(b, b.len() - raw_suffix);
        lemma_snap_up(b, b.len() - raw_suffix);
        let suffix = b.len() - up;
        let d = b.len() - suffix;
        let i = a.len() - suffix;
        assert(0 <= suffix <= raw_suffix);
        assert(prefix <= d);
        assert(prefix <= i);
        assert(b.take(prefix) =~= a.take(prefix)) by {
            assert forall|q: int| 0 <= q < prefix implies #[trigger] b.take(prefix)[q] == a.take(
                prefix,
            )[q] by {
                assert(b[q] == a[q]);
            }
        }
        assert(b.skip(d) =~= a.skip(i)) by {
            assert forall|q: int| 0 <= q < suffix implies #[trigger] b.skip(d)[q] == a.skip(i)[q] by {
                let k = suffix - 1 - q;
                assert(b[b.len() - 1 - k] == a[a.len() - 1 - k]);
            }
        }
        lemma_shared_prefix_boundary(a, b, prefix);
        is_char_boundary_start_end_of_seq(a);
        if suffix > 0 {
            assert(a[i] == b[d]) by {
                let k = suffix - 1;
                assert(b[b.len() - 1 - k] == a[a.len() - 1 - k]);
            }
            is_char_boundary_iff_not_is_continuation_byte(b, d);
            is_char_boundary_iff_not_is_continuation_byte(a, i);
        }
    }
}

/// The deleted range of `before_text`, the deleted slice and the inserted
/// slice of `after_text`.
#[derive(Debug)]
pub struct TextDiff<'a> {
    pub deleted_range: (usize, usize),
    pub deleted_text: &'a str,
    pub inserted_text: &'a str,
}

/// The minimal contiguous edit from `before_text` to `after_text`, with
/// `cursor_byte` the caret offset in `after_text` bounding the common
/// prefix. `None` when the texts are identical.
pub fn diff_texts<'a>(before_text: &'a str, after_text: &'a str, cursor_byte: usize) -> (r: Option<
    TextDiff<'a>,
>)
    ensures
        r.is_none() <==> diff_envelope(
            before_text.spec_bytes(),
            after_text.spec_bytes(),
            cursor_byte as int,
        ).is_none(),
        r.is_none() <==> before_text@ == after_text@,
        r matches Some(d) ==> ({
            let (p, de, ie) = diff_envelope(
                before_text.spec_bytes(),
                after_text.spec_bytes(),
                cursor_byte as int,
            )->0;
            &&& d.deleted_range == (p as usize, de as usize)
            &&& d.deleted_text.spec_bytes() == before_text.spec_bytes().subrange(p, de)
            &&& d.inserted_text.spec_bytes() == after_text.spec_bytes().subrange(p, ie)
            &&& before_text.spec_bytes().take(p) + d.inserted_text.spec_bytes()
                + before_text.spec_bytes().skip(de) == after_text.spec_bytes()
        }),
{
    let b = before_text.as_bytes();
    let a = after_text.as_bytes();
    let ghost bs = before_text.spec_bytes();
    let ghost as_ = after_text.spec_bytes();
    proof {
        encode_utf8_valid_utf8(before_text@);
        encode_utf8_valid_utf8(after_text@);
        lemma_diff_envelope(bs, as_, cursor_byte as int);
        if before_text@ == after_text@ {
            assert(bs == as_);
        }
        if bs == as_ {
            crate::text::lemma_encode_injective(before_text@, after_text@);
        }
    }
    if bytes_equal(b, a) {
        return None;
    }
    let lcp = common_prefix(b, a);
    let raw_prefix = if lcp < cursor_byte {
        lcp
    } else {
        cursor_byte
    };
    proof {
        lemma_common_prefix(bs, as_);
    }
    let prefix = snap_to_char_boundary_down(before_text, raw_prefix);
    let after_cursor = if a.len() >= cursor_byte {
        a.len() - cursor_byte
    } else {
        0
    };
    let left = if b.len() >= prefix {
        b.len() - prefix
    } else {
        0
    };
    let max_suffix = if after_cursor < left {
        after_cursor
    } else {
        left
    };
    let lcs = common_suffix(b, a);
    proof {
        lemma_common_suffix(bs, as_);
    }
    let raw_suffix = if lcs < max_suffix {
        lcs
    } else {
        max_suffix
    };
    let up = snap_to_char_boundary_up(before_text, b.len() - raw_suffix);
    let suffix = b.len() - up;
    let deleted_end = if b.len() >= suffix {
        b.len() - suffix
    } else {
        0
    };
    let inserted_end = if a.len() >= suffix {
        a.len() - suffix
    } else {
        0
    };
    if prefix > deleted_end || prefix > inserted_end {
        return None;
    }
    let deleted_text = substr_bytes(before_text, prefix, deleted_end);
    let inserted_text = substr_bytes(after_text, prefix, inserted_end);
    proof {
        let p = prefix as int;
        assert(bs.take(p) + as_.subrange(p, inserted_end as int) + bs.skip(deleted_end as int) =~= as_);
    }
    Some(TextDiff { deleted_range: (prefix, deleted_end), deleted_text, inserted_text })
}


// ───────────────────────── multi-site decomposition ─────────────────────────

/// Length of the longest prefix of `m` without a newline byte.
pub open spec fn newline_free_len(m: Seq<u8>) -> nat
    decreases m.len(),
{
    if m.len() == 0 || m[0] == 10u8 {
        0
    } else {
        1 + newline_free_len(m.drop_first())
    }
}

pub proof fn lemma_newline_free(m: Seq<u8>)
    ensures
        newline_free_len(m) <= m.len(),
        forall|i: int| 0 <= i < newline_free_len(m) ==> #[trigger] m[i] != 10u8,
        newline_free_len(m) < m.len() ==> m[newline_free_len(m) as int] == 10u8,
    decreases m.len(),
{
    if m.len() > 0 && m[0] != 10u8 {
        lemma_newline_free(m.drop_first());
        assert forall|i: int| 0 <= i < newline_free_len(m) implies #[trigger] m[i] != 10u8 by {
            if i > 0 {
                assert(m[i] == m.drop_first()[i - 1]);
            }
        }
    }
}

pub proof fn lemma_newline_free_unique(m: Seq<u8>, n: int)
    requires
        0 <= n <= m.len(),
        forall|i: int| 0 <= i < n ==> #[trigger] m[i] != 10u8,
        n < m.len() ==> m[n] == 10u8,
    ensures
        newline_free_len(m) == n,
    decreases n,
{
    if n > 0 {
        let d = m.drop_first();
        assert(m[0] != 10u8);
        assert forall|i: int| 0 <= i < n - 1 implies #[trigger] d[i] != 10u8 by {
            assert(d[i] == m[i + 1]);
        }
        if n - 1 < d.len() {
            assert(d[n - 1] == m[n]);
        }
        lemma_newline_free_unique(d, n - 1);
    }
}

/// The lines of `m` as `str::split_inclusive('\n')` yields them: each keeps
/// its `\n`, the last one may lack it, and there is no empty last line.
pub open spec fn split_lines(m: Seq<u8>) -> Seq<Seq<u8>>
    decreases m.len(),
{
    if m.len() == 0 {
        seq![]
    } else {
        let e = newline_free_len(m) as int;
        if e >= m.len() {
            seq![m]
        } else {
            seq![m.take(e + 1)] + split_lines(m.skip(e + 1))
        }
    }
}

pub proof fn lemma_split_lines(m: Seq<u8>)
    ensures
        split_lines(m).flatten() == m,
        forall|k: int| 0 <= k < split_lines(m).len() ==> (#[trigger] split_lines(m)[k]).len() > 0,
        forall|k: int|
            0 <= k < split_lines(m).len() - 1 ==> (#[trigger] split_lines(m)[k]).last() == 10u8,
    decreases m.len(),
{
    if m.len() > 0 {
        lemma_newline_free(m);
        let e = newline_free_len(m) as int;
        let ls = split_lines(m);
        if e >= m.len() {
            assert(ls.drop_first() =~= Seq::<Seq<u8>>::empty());
            assert(ls.drop_first().flatten() =~= Seq::<u8>::empty());
            assert(ls.first() + Seq::<u8>::empty() =~= m);
        } else {
            let rest = m.skip(e + 1);
            lemma_split_lines(rest);
            assert(ls.drop_first() =~= split_lines(rest));
            assert(ls.flatten() == m.take(e + 1) + split_lines(rest).flatten());
            assert(m.take(e + 1) + rest =~= m);
            assert forall|k: int| 0 <= k < ls.len() implies (#[trigger] ls[k]).len() > 0 by {
                if k > 0 {
                    assert(ls[k] == split_lines(rest)[k - 1]);
                }
            }
            assert forall|k: int| 0 <= k < ls.len() - 1 implies (#[trigger] ls[k]).last() == 10u8 by {
                if k > 0 {
                    assert(ls[k] == split_lines(rest)[k - 1]);
                }
            }
        }
    }
}

/// Byte offset of line `k`: the total length of the lines before it.
pub open spec fn line_offset(ls: Seq<Seq<u8>>, k: int) -> int {
    ls.take(k).flatten().len() as int
}

/// Line `k` is the bytes between its offset and the next.
pub proof fn lemma_line_offset(ls: Seq<Seq<u8>>, k: int)
    requires
        0 <= k < ls.len(),
    ensures
        line_offset(ls, k + 1) == line_offset(ls, k) + ls[k].len(),
        line_offset(ls, k + 1) <= ls.flatten().len(),
        ls[k] == ls.flatten().subrange(line_offset(ls, k), line_offset(ls, k + 1)),
{
    assert(ls.take(k + 1) =~= ls.take(k).push(ls[k]));
    ls.take(k).lemma_flatten_push(ls[k]);
    assert(ls =~= ls.take(k + 1) + ls.skip(k + 1));
    vstd::seq_lib::lemma_flatten_concat(ls.take(k + 1), ls.skip(k + 1));
    let a = ls.take(k).flatten();
    assert(ls.flatten().subrange(a.len() as int, (a.len() + ls[k].len()) as int) =~= ls[k]);
}

/// Line offsets grow with the line index.
pub proof fn lemma_line_offset_mono(ls: Seq<Seq<u8>>, i: int, j: int)
    requires
        0 <= i <= j <= ls.len(),
    ensures
        0 <= line_offset(ls, i) <= line_offset(ls, j) <= ls.flatten().len(),
    decreases j - i,
{
    if i < j {
        lemma_line_offset(ls, j - 1);
        lemma_line_offset_mono(ls, i, j - 1);
    } else {
        assert(ls =~= ls.take(j) + ls.skip(j));
        vstd::seq_lib::lemma_flatten_concat(ls.take(j), ls.skip(j));
    }
}

/// The lines of a text between two line offsets flatten to the bytes
/// between them.
pub proof fn lemma_lines_subrange(ls: Seq<Seq<u8>>, i: int, j: int)
    requires
        0 <= i <= j <= ls.len(),
    ensures
        ls.subrange(i, j).flatten() == ls.flatten().subrange(line_offset(ls, i), line_offset(ls, j)),
    decreases j - i,
{
    lemma_line_offset_mono(ls, i, j);
    if i == j {
        assert(ls.subrange(i, j) =~= Seq::<Seq<u8>>::empty());
        assert(ls.flatten().subrange(line_offset(ls, i), line_offset(ls, j)) =~= Seq::<u8>::empty());
    } else {
        lemma_lines_subrange(ls, i, j - 1);
        lemma_line_offset(ls, j - 1);
        lemma_line_offset_mono(ls, i, j - 1);
        assert(ls.subrange(i, j) =~= ls.subrange(i, j - 1).push(ls[j - 1]));
        ls.subrange(i, j - 1).lemma_flatten_push(ls[j - 1]);
        let f = ls.flatten();
        assert(f.subrange(line_offset(ls, i), line_offset(ls, j)) =~= f.subrange(
            line_offset(ls, i),
            line_offset(ls, j - 1),
        ) + f.subrange(line_offset(ls, j - 1), line_offset(ls, j)));
    }
}

/// Every line offset of a valid text is a character boundary.
pub proof fn lemma_line_offset_boundary(cs: Seq<char>, k: int)
    requires
        0 <= k <= split_lines(encode_utf8(cs)).len(),
    ensures
        is_char_boundary(encode_utf8(cs), line_offset(split_lines(encode_utf8(cs)), k)),
{
    let m = encode_utf8(cs);
    let ls = split_lines(m);
    encode_utf8_valid_utf8(cs);
    is_char_boundary_start_end_of_seq(m);
    lemma_split_lines(m);
    if k == 0 {
        assert(ls.take(0) =~= Seq::<Seq<u8>>::empty());
    } else if k == ls.len() {
        assert(ls.take(k) =~= ls);
    } else {
        lemma_line_offset(ls, k - 1);
        lemma_line_offset_mono(ls, k, ls.len() as int);
        let q = line_offset(ls, k);
        assert(ls[k - 1].last() == 10u8);
        assert(m[q - 1] == ls[k - 1][ls[k - 1].len() - 1]);
        crate::text::lemma_after_newline_boundary(cs, q);
    }
}

/// Line `i` of `o` and line `j` of `n` both exist and are equal.
pub open spec fn lines_match(o: Seq<Seq<u8>>, n: Seq<Seq<u8>>, i: int, j: int) -> bool {
    0 <= i < o.len() && 0 <= j < n.len() && o[i] == n[j]
}

/// How far a mismatch at `(oi, ni)` extends: the first of the advances
/// (1,1), (1,0), (2,2), (2,0), (3,3), (1,2), (2,1), (3,0) after which the
/// lines match again, or one line on each side when none does.
pub open spec fn resync(o: Seq<Seq<u8>>, n: Seq<Seq<u8>>, oi: int, ni: int) -> (int, int) {
    if lines_match(o, n, oi + 1, ni + 1) {
        (1, 1)
    } else if lines_match(o, n, oi + 1, ni) {
        (1, 0)
    } else if lines_match(o, n, oi + 2, ni + 2) {
        (2, 2)
    } else if lines_match(o, n, oi + 2, ni) {
        (2, 0)
    } else if lines_match(o, n, oi + 3, ni + 3) {
        (3, 3)
    } else if lines_match(o, n, oi + 1, ni + 2) {
        (1, 2)
    } else if lines_match(o, n, oi + 2, ni + 1) {
        (2, 1)
    } else if lines_match(o, n, oi + 3, ni) {
        (3, 0)
    } else {
        (1, 1)
    }
}

/// Hunks `(old_start, old_end, new_start, new_end)` of line ranges, by
/// greedy matching from lines `oi` and `ni` on: equal lines advance both
/// sides, a mismatch makes a hunk up to the resynchronisation point, and
/// lines left over on either side make a last hunk.
pub open spec fn hunks_from(o: Seq<Seq<u8>>, n: Seq<Seq<u8>>, oi: int, ni: int) -> Seq<
    (int, int, int, int),
>
    decreases o.len() - oi + n.len() - ni,
    when 0 <= oi <= o.len() && 0 <= ni <= n.len()
{
    if oi < o.len() && ni < n.len() {
        if o[oi] == n[ni] {
            hunks_from(o, n, oi + 1, ni + 1)
        } else {
            let d = resync(o, n, oi, ni);
            seq![(oi, oi + d.0, ni, ni + d.1)] + hunks_from(o, n, oi + d.0, ni + d.1)
        }
    } else if oi < o.len() || ni < n.len() {
        seq![(oi, o.len() as int, ni, n.len() as int)]
    } else {
        seq![]
    }
}

/// One edit site: `old_len` bytes at `offset` of the old text replaced by
/// `inserted`.
#[derive(Debug, Clone)]
pub struct EditRegion<'a> {
    pub offset: usize,
    pub old_len: usize,
    pub inserted: &'a str,
}

/// `(offset, old_len, inserted bytes)` of a region.
pub open spec fn region_view(r: EditRegion) -> (int, int, Seq<u8>) {
    (r.offset as int, r.old_len as int, r.inserted.spec_bytes())
}

/// The region of hunk `h`, with the old middle starting at `base`.
pub open spec fn hunk_region(
    base: int,
    o: Seq<Seq<u8>>,
    n: Seq<Seq<u8>>,
    h: (int, int, int, int),
) -> (int, int, Seq<u8>) {
    (
        base + line_offset(o, h.0),
        line_offset(o, h.1) - line_offset(o, h.0),
        n.flatten().subrange(line_offset(n, h.2), line_offset(n, h.3)),
    )
}

/// A change too small or one-sided to split.
pub open spec fn single_site(om: Seq<u8>, nm: Seq<u8>) -> bool {
    om.len() + nm.len() < 200 || om.len() == 0 || nm.len() == 0
}

/// Regions of the change from `b` to `a`: none for equal texts; the whole
/// envelope for a small or one-sided change or when line matching finds a
/// single hunk; else one region per hunk.
pub open spec fn regions_spec(b: Seq<u8>, a: Seq<u8>, cursor: int, r: Seq<(int, int, Seq<u8>)>) -> bool {
    match diff_envelope(b, a, cursor) {
        None => r.len() == 0,
        Some((p, de, ie)) => {
            let om = b.subrange(p, de);
            let nm = a.subrange(p, ie);
            let o = split_lines(om);
            let n = split_lines(nm);
            let hs = hunks_from(o, n, 0, 0);
            if single_site(om, nm) || hs.len() <= 1 {
                r == seq![(p, om.len() as int, nm)]
            } else {
                &&& r.len() == hs.len()
                &&& forall|k: int| 0 <= k < hs.len() ==> #[trigger] r[k] == hunk_region(p, o, n, hs[k])
            }
        },
    }
}

/// The regions that [`regions_spec`] describes.
pub open spec fn regions_of(b: Seq<u8>, a: Seq<u8>, cursor: int) -> Seq<(int, int, Seq<u8>)> {
    match diff_envelope(b, a, cursor) {
        None => seq![],
        Some((p, de, ie)) => {
            let om = b.subrange(p, de);
            let nm = a.subrange(p, ie);
            let o = split_lines(om);
            let n = split_lines(nm);
            let hs = hunks_from(o, n, 0, 0);
            if single_site(om, nm) || hs.len() <= 1 {
                seq![(p, om.len() as int, nm)]
            } else {
                Seq::new(hs.len(), |k: int| hunk_region(p, o, n, hs[k]))
            }
        },
    }
}

/// [`regions_spec`] describes exactly [`regions_of`].
pub proof fn lemma_regions_of(b: Seq<u8>, a: Seq<u8>, cursor: int, r: Seq<(int, int, Seq<u8>)>)
    ensures
        regions_spec(b, a, cursor, regions_of(b, a, cursor)),
        regions_spec(b, a, cursor, r) ==> r == regions_of(b, a, cursor),
{
    if regions_spec(b, a, cursor, r) {
        assert(r =~= regions_of(b, a, cursor));
    }
}

/// Offsets of the lines of `m`, and the length of `m` at the end.
fn line_offsets(m: &[u8]) -> (r: Vec<usize>)
    ensures
        r@.len() == split_lines(m@).len() + 1,
        forall|k: int| 0 <= k <= split_lines(m@).len() ==> #[trigger] r@[k] == line_offset(split_lines(m@), k),
{
    let mut r: Vec<usize> = Vec::new();
    r.push(0);
    let mut pos: usize = 0;
    let ghost mut done: Seq<Seq<u8>> = seq![];
    proof {
        assert(m@.skip(0) =~= m@);
        assert(done.take(0) =~= done);
    }
    while pos < m.len()
        invariant
            pos <= m@.len(),
            split_lines(m@) == done + split_lines(m@.skip(pos as int)),
            r@.len() == done.len() + 1,
            forall|k: int| 0 <= k <= done.len() ==> #[trigger] r@[k] == line_offset(done, k),
            done.flatten() == m@.take(pos as int),
        decreases m@.len() - pos,
    {
        let ghost rest = m@.skip(pos as int);
        let mut e = pos;
        while e < m.len() && m[e] != 10u8
            invariant
                pos <= e <= m@.len(),
                forall|q: int| pos <= q < e ==> #[trigger] m@[q] != 10u8,
            decreases m@.len() - e,
        {
            e = e + 1;
        }
        proof {
            assert forall|q: int| 0 <= q < e - pos implies #[trigger] rest[q] != 10u8 by {
                assert(rest[q] == m@[pos + q]);
            }
            if e < m@.len() {
                assert(rest[e - pos] == m@[e as int]);
            }
            lemma_newline_free_unique(rest, e - pos);
        }
        let end = if e < m.len() {
            e + 1
        } else {
            e
        };
        proof {
            let line = m@.subrange(pos as int, end as int);
            if e < m@.len() {
                assert(rest.take(e - pos + 1) =~= line);
                assert(rest.skip(e - pos + 1) =~= m@.skip(end as int));
                assert(split_lines(m@) =~= done.push(line) + split_lines(m@.skip(end as int)));
            } else {
                assert(rest =~= line);
                assert(m@.skip(end as int) =~= Seq::<u8>::empty());
                assert(split_lines(m@.skip(end as int)) =~= Seq::<Seq<u8>>::empty());
                assert(split_lines(m@) =~= done.push(line) + split_lines(m@.skip(end as int)));
            }
            done.lemma_flatten_push(line);
            assert(m@.take(pos as int) + line =~= m@.take(end as int));
            let nd = done.push(line);
            assert forall|k: int| 0 <= k <= done.len() implies line_offset(nd, k) == line_offset(done, k) by {
                assert(nd.take(k) =~= done.take(k));
            }
            assert(nd.take(nd.len() as int) =~= nd);
            assert(done.take(done.len() as int) =~= done);
            done = nd;
        }
        r.push(end);
        pos = end;
    }
    proof {
        assert(m@.skip(pos as int) =~= Seq::<u8>::empty());
        assert(split_lines(m@.skip(pos as int)) =~= Seq::<Seq<u8>>::empty());
        assert(split_lines(m@) =~= done);
    }
    r
}

/// Whether `x[a1..b1]` equals `y[a2..b2]`.
fn ranges_equal(x: &[u8], a1: usize, b1: usize, y: &[u8], a2: usize, b2: usize) -> (r: bool)
    requires
        a1 <= b1 <= x@.len(),
        a2 <= b2 <= y@.len(),
    ensures
        r == (x@.subrange(a1 as int, b1 as int) == y@.subrange(a2 as int, b2 as int)),
{
    if b1 - a1 != b2 - a2 {
        proof {
            assert(x@.subrange(a1 as int, b1 as int).len() != y@.subrange(a2 as int, b2 as int).len());
        }
        return false;
    }
    let mut i: usize = 0;
    while i < b1 - a1
        invariant
            a1 <= b1 <= x@.len(),
            a2 <= b2 <= y@.len(),
            b1 - a1 == b2 - a2,
            i <= b1 - a1,
            forall|q: int| 0 <= q < i ==> #[trigger] x@[a1 + q] == y@[a2 + q],
        decreases b1 - a1 - i,
    {
        if x[a1 + i] != y[a2 + i] {
            proof {
                assert(x@.subrange(a1 as int, b1 as int)[i as int] != y@.subrange(a2 as int, b2 as int)[i as int]);
            }
            return false;
        }
        i = i + 1;
    }
    proof {
        assert forall|q: int| 0 <= q < b1 - a1 implies #[trigger] x@.subrange(a1 as int, b1 as int)[q]
            == y@.subrange(a2 as int, b2 as int)[q] by {
            assert(x@[a1 + q] == y@[a2 + q]);
        }
        assert(x@.subrange(a1 as int, b1 as int) =~= y@.subrange(a2 as int, b2 as int));
    }
    true
}

/// Lines of a text with their offsets, as the matcher reads them.
pub open spec fn offsets_of(m: Seq<u8>, off: Seq<usize>) -> bool {
    &&& off.len() == split_lines(m).len() + 1
    &&& forall|k: int| 0 <= k <= split_lines(m).len() ==> #[trigger] off[k] == line_offset(split_lines(m), k)
}

/// Whether line `i + di` of the old middle equals line `j + dj` of the new one.
fn lines_match_exec(
    ob: &[u8],
    oo: &Vec<usize>,
    nb: &[u8],
    no: &Vec<usize>,
    i: usize,
    di: usize,
    j: usize,
    dj: usize,
) -> (r: bool)
    requires
        offsets_of(ob@, oo@),
        offsets_of(nb@, no@),
        i < oo@.len(),
        j < no@.len(),
    ensures
        r == lines_match(split_lines(ob@), split_lines(nb@), i + di, j + dj),
{
    if di >= oo.len() - 1 - i || dj >= no.len() - 1 - j {
        return false;
    }
    let p = i + di;
    let q = j + dj;
    proof {
        lemma_split_lines(ob@);
        lemma_split_lines(nb@);
        lemma_line_offset(split_lines(ob@), p as int);
        lemma_line_offset(split_lines(nb@), q as int);
    }
    ranges_equal(ob, oo[p], oo[p + 1], nb, no[q], no[q + 1])
}

/// The resynchronisation advance after a mismatch at `(oi, ni)`.
fn resync_exec(ob: &[u8], oo: &Vec<usize>, nb: &[u8], no: &Vec<usize>, oi: usize, ni: usize) -> (r: (usize, usize))
    requires
        offsets_of(ob@, oo@),
        offsets_of(nb@, no@),
        oi < oo@.len(),
        ni < no@.len(),
    ensures
        (r.0 as int, r.1 as int) == resync(split_lines(ob@), split_lines(nb@), oi as int, ni as int),
{
    if lines_match_exec(ob, oo, nb, no, oi, 1, ni, 1) {
        (1, 1)
    } else if lines_match_exec(ob, oo, nb, no, oi, 1, ni, 0) {
        (1, 0)
    } else if lines_match_exec(ob, oo, nb, no, oi, 2, ni, 2) {
        (2, 2)
    } else if lines_match_exec(ob, oo, nb, no, oi, 2, ni, 0) {
        (2, 0)
    } else if lines_match_exec(ob, oo, nb, no, oi, 3, ni, 3) {
        (3, 3)
    } else if lines_match_exec(ob, oo, nb, no, oi, 1, ni, 2) {
        (1, 2)
    } else if lines_match_exec(ob, oo, nb, no, oi, 2, ni, 1) {
        (2, 1)
    } else if lines_match_exec(ob, oo, nb, no, oi, 3, ni, 0) {
        (3, 0)
    } else {
        (1, 1)
    }
}

/// Integer view of a hunk.
pub open spec fn hunk_view(h: (usize, usize, usize, usize)) -> (int, int, int, int) {
    (h.0 as int, h.1 as int, h.2 as int, h.3 as int)
}

pub open spec fn hunk_views(s: Seq<(usize, usize, usize, usize)>) -> Seq<(int, int, int, int)> {
    s.map_values(|h: (usize, usize, usize, usize)| hunk_view(h))
}

/// The hunks of the greedy line matching of the two middles.
fn compute_hunks(ob: &[u8], oo: &Vec<usize>, nb: &[u8], no: &Vec<usize>) -> (hs: Vec<
    (usize, usize, usize, usize),
>)
    requires
        offsets_of(ob@, oo@),
        offsets_of(nb@, no@),
    ensures
        hunk_views(hs@) == hunks_from(split_lines(ob@), split_lines(nb@), 0, 0),
{
    let ghost o = split_lines(ob@);
    let ghost n = split_lines(nb@);
    let lo = oo.len() - 1;
    let ln = no.len() - 1;
    let mut hs: Vec<(usize, usize, usize, usize)> = Vec::new();
    let mut oi: usize = 0;
    let mut ni: usize = 0;
    proof {
        lemma_split_lines(ob@);
        lemma_split_lines(nb@);
        lemma_line_offset_mono(o, 0, o.len() as int);
        lemma_line_offset_mono(n, 0, n.len() as int);
        assert(hunk_views(hs@) =~= Seq::<(int, int, int, int)>::empty());
    }
    while oi < lo && ni < ln
        invariant
            offsets_of(ob@, oo@),
            offsets_of(nb@, no@),
            o == split_lines(ob@),
            n == split_lines(nb@),
            lo == o.len(),
            ln == n.len(),
            oi <= lo,
            ni <= ln,
            lo + 1 == oo@.len(),
            ln + 1 == no@.len(),
            hunks_from(o, n, 0, 0) == hunk_views(hs@) + hunks_from(o, n, oi as int, ni as int),
        decreases lo - oi + ln - ni,
    {
        if lines_match_exec(ob, oo, nb, no, oi, 0, ni, 0) {
            oi = oi + 1;
            ni = ni + 1;
        } else {
            let d = resync_exec(ob, oo, nb, no, oi, ni);
            let h = (oi, oi + d.0, ni, ni + d.1);
            proof {
                assert(hunk_views(hs@.push(h)) =~= hunk_views(hs@).push(hunk_view(h)));
                assert(hunks_from(o, n, oi as int, ni as int) == seq![hunk_view(h)] + hunks_from(
                    o,
                    n,
                    oi + d.0,
                    ni + d.1,
                ));
            }
            hs.push(h);
            oi = oi + d.0;
            ni = ni + d.1;
        }
    }
    if oi < lo || ni < ln {
        let h = (oi, lo, ni, ln);
        proof {
            assert(hunk_views(hs@.push(h)) =~= hunk_views(hs@).push(hunk_view(h)));
            assert(hunks_from(o, n, oi as int, ni as int) == seq![hunk_view(h)]);
        }
        hs.push(h);
    } else {
        proof {
            assert(hunks_from(o, n, oi as int, ni as int) =~= Seq::<(int, int, int, int)>::empty());
        }
    }
    hs
}


/// Views of a list of regions.
pub open spec fn region_views<'a>(rs: Seq<EditRegion<'a>>) -> Seq<(int, int, Seq<u8>)> {
    rs.map_values(|x: EditRegion<'a>| region_view(x))
}

/// Hunks lie within the lines from `(oi, ni)` on, in order, each starting
/// at or after the end of the one before.
pub proof fn lemma_hunks_ordered(o: Seq<Seq<u8>>, n: Seq<Seq<u8>>, oi: int, ni: int)
    requires
        0 <= oi <= o.len(),
        0 <= ni <= n.len(),
    ensures
        forall|k: int|
            0 <= k < hunks_from(o, n, oi, ni).len() ==> {
                let h = #[trigger] hunks_from(o, n, oi, ni)[k];
                &&& oi <= h.0 <= h.1 <= o.len()
                &&& ni <= h.2 <= h.3 <= n.len()
            },
        forall|k: int|
            0 <= k < hunks_from(o, n, oi, ni).len() - 1 ==> (#[trigger] hunks_from(o, n, oi, ni)[k]).1
                <= hunks_from(o, n, oi, ni)[k + 1].0 && hunks_from(o, n, oi, ni)[k].3 <= hunks_from(
                o,
                n,
                oi,
                ni,
            )[k + 1].2,
    decreases o.len() - oi + n.len() - ni,
{
    let hs = hunks_from(o, n, oi, ni);
    if oi < o.len() && ni < n.len() {
        if o[oi] == n[ni] {
            lemma_hunks_ordered(o, n, oi + 1, ni + 1);
            let rest = hunks_from(o, n, oi + 1, ni + 1);
            assert(hs == rest);
            assert forall|k: int| 0 <= k < hs.len() implies {
                let h = #[trigger] hs[k];
                &&& oi <= h.0 <= h.1 <= o.len()
                &&& ni <= h.2 <= h.3 <= n.len()
            } by {
                assert(hs[k] == rest[k]);
            }
            assert forall|k: int| 0 <= k < hs.len() - 1 implies (#[trigger] hs[k]).1 <= hs[k + 1].0
                && hs[k].3 <= hs[k + 1].2 by {
                assert(hs[k] == rest[k]);
                assert(hs[k + 1] == rest[k + 1]);
            }
        } else {
            let d = resync(o, n, oi, ni);
            let rest = hunks_from(o, n, oi + d.0, ni + d.1);
            lemma_hunks_ordered(o, n, oi + d.0, ni + d.1);
            assert(hs == seq![(oi, oi + d.0, ni, ni + d.1)] + rest);
            assert forall|k: int| 0 <= k < hs.len() implies {
                let h = #[trigger] hs[k];
                &&& oi <= h.0 <= h.1 <= o.len()
                &&& ni <= h.2 <= h.3 <= n.len()
            } by {
                if k > 0 {
                    assert(hs[k] == rest[k - 1]);
                }
            }
            assert forall|k: int| 0 <= k < hs.len() - 1 implies (#[trigger] hs[k]).1 <= hs[k + 1].0
                && hs[k].3 <= hs[k + 1].2 by {
                assert(hs[k + 1] == rest[k]);
                if k > 0 {
                    assert(hs[k] == rest[k - 1]);
                }
            }
        }
    } else if oi < o.len() || ni < n.len() {
        assert(hs == seq![(oi, o.len() as int, ni, n.len() as int)]);
    } else {
        assert(hs == Seq::<(int, int, int, int)>::empty());
    }
}

/// A single region covering the whole envelope.
fn single_region<'a>(offset: usize, old_len: usize, inserted: &'a str) -> (r: Vec<EditRegion<'a>>)
    ensures
        region_views(r@) == seq![(offset as int, old_len as int, inserted.spec_bytes())],
{
    let mut r: Vec<EditRegion<'a>> = Vec::new();
    r.push(EditRegion { offset, old_len, inserted });
    proof {
        assert(region_views(r@) =~= seq![(offset as int, old_len as int, inserted.spec_bytes())]);
    }
    r
}

/// `b` with each region `(offset, old_len, inserted)` of `rs`, taken in
/// order from byte `from` on, replaced by its inserted bytes.
pub open spec fn apply_regions(b: Seq<u8>, rs: Seq<(int, int, Seq<u8>)>, from: int) -> Seq<u8>
    decreases rs.len(),
{
    if rs.len() == 0 {
        b.skip(from)
    } else {
        b.subrange(from, rs[0].0) + rs[0].2 + apply_regions(b, rs.drop_first(), rs[0].0 + rs[0].1)
    }
}

/// The old lines from `from` on with each hunk replaced by its new lines.
pub open spec fn splice_lines(
    o: Seq<Seq<u8>>,
    n: Seq<Seq<u8>>,
    hs: Seq<(int, int, int, int)>,
    from: int,
) -> Seq<u8>
    decreases hs.len(),
{
    if hs.len() == 0 {
        o.skip(from).flatten()
    } else {
        o.subrange(from, hs[0].0).flatten() + n.subrange(hs[0].2, hs[0].3).flatten() + splice_lines(
            o,
            n,
            hs.drop_first(),
            hs[0].1,
        )
    }
}

proof fn lemma_flatten3<A>(x: Seq<Seq<A>>, y: Seq<Seq<A>>, z: Seq<Seq<A>>)
    ensures
        (x + y + z).flatten() == x.flatten() + y.flatten() + z.flatten(),
{
    vstd::seq_lib::lemma_flatten_concat(x + y, z);
    vstd::seq_lib::lemma_flatten_concat(x, y);
}

/// Outside the hunks the greedy matching only passes over equal lines, so
/// replacing each hunk by its new lines rebuilds the new lines.
proof fn lemma_splice_hunks(o: Seq<Seq<u8>>, n: Seq<Seq<u8>>, oi: int, ni: int, from: int, nfrom: int)
    requires
        0 <= from <= oi <= o.len(),
        0 <= nfrom <= ni <= n.len(),
        o.subrange(from, oi) == n.subrange(nfrom, ni),
    ensures
        splice_lines(o, n, hunks_from(o, n, oi, ni), from) == n.skip(nfrom).flatten(),
    decreases o.len() - oi + n.len() - ni,
{
    let hs = hunks_from(o, n, oi, ni);
    if oi < o.len() && ni < n.len() {
        if o[oi] == n[ni] {
            assert(o.subrange(from, oi + 1) =~= o.subrange(from, oi).push(o[oi]));
            assert(n.subrange(nfrom, ni + 1) =~= n.subrange(nfrom, ni).push(n[ni]));
            lemma_splice_hunks(o, n, oi + 1, ni + 1, from, nfrom);
            assert(hs == hunks_from(o, n, oi + 1, ni + 1));
            assert(splice_lines(o, n, hs, from) == n.skip(nfrom).flatten());
        } else {
            let d = resync(o, n, oi, ni);
            let rest = hunks_from(o, n, oi + d.0, ni + d.1);
            assert(o.subrange(oi + d.0, oi + d.0) =~= n.subrange(ni + d.1, ni + d.1));
            lemma_splice_hunks(o, n, oi + d.0, ni + d.1, oi + d.0, ni + d.1);
            assert(hs.drop_first() =~= rest);
            assert(hs[0] == (oi, oi + d.0, ni, ni + d.1));
            lemma_flatten3(n.subrange(nfrom, ni), n.subrange(ni, ni + d.1), n.skip(ni + d.1));
            assert(n.subrange(nfrom, ni) + n.subrange(ni, ni + d.1) + n.skip(ni + d.1) =~= n.skip(
                nfrom,
            ));
            assert(o.subrange(from, oi).flatten() == n.subrange(nfrom, ni).flatten());
            assert(splice_lines(o, n, hs, from) == o.subrange(from, oi).flatten() + n.subrange(
                ni,
                ni + d.1,
            ).flatten() + splice_lines(o, n, rest, oi + d.0));
            assert(splice_lines(o, n, hs, from) == n.skip(nfrom).flatten());
        }
    } else if oi < o.len() || ni < n.len() {
        assert(hs == seq![(oi, o.len() as int, ni, n.len() as int)]);
        assert(hs.len() == 1);
        assert(hs[0] == (oi, o.len() as int, ni, n.len() as int));
        assert(hs.drop_first() =~= Seq::<(int, int, int, int)>::empty());
        assert(splice_lines(o, n, hs.drop_first(), o.len() as int) == o.skip(o.len() as int).flatten());
        assert(o.skip(o.len() as int) =~= Seq::<Seq<u8>>::empty());
        assert(o.skip(o.len() as int).flatten() =~= Seq::<u8>::empty());
        vstd::seq_lib::lemma_flatten_concat(n.subrange(nfrom, ni), n.subrange(ni, n.len() as int));
        assert(n.subrange(nfrom, ni) + n.subrange(ni, n.len() as int) =~= n.skip(nfrom));
        assert(n.subrange(nfrom, ni).flatten() + n.subrange(ni, n.len() as int).flatten()
            + Seq::<u8>::empty() =~= n.subrange(nfrom, ni).flatten() + n.subrange(
            ni,
            n.len() as int,
        ).flatten());
        assert(o.subrange(from, oi).flatten() == n.subrange(nfrom, ni).flatten());
        assert(splice_lines(o, n, hs, from) == n.skip(nfrom).flatten());
    } else {
        assert(o.skip(from) =~= o.subrange(from, oi));
        assert(n.skip(nfrom) =~= n.subrange(nfrom, ni));
        assert(splice_lines(o, n, hs, from) == n.skip(nfrom).flatten());
    }
}

/// Applying the regions of hunks to the bytes is splicing the lines.
proof fn lemma_apply_hunks(
    b: Seq<u8>,
    p: int,
    de: int,
    o: Seq<Seq<u8>>,
    n: Seq<Seq<u8>>,
    hs: Seq<(int, int, int, int)>,
    rs: Seq<(int, int, Seq<u8>)>,
    from: int,
)
    requires
        0 <= p <= de <= b.len(),
        o.flatten() == b.subrange(p, de),
        0 <= from <= o.len(),
        rs.len() == hs.len(),
        forall|k: int| 0 <= k < hs.len() ==> #[trigger] rs[k] == hunk_region(p, o, n, hs[k]),
        forall|k: int|
            0 <= k < hs.len() ==> {
                let h = #[trigger] hs[k];
                &&& 0 <= h.0 <= h.1 <= o.len()
                &&& 0 <= h.2 <= h.3 <= n.len()
            },
        forall|k: int| 0 <= k < hs.len() - 1 ==> (#[trigger] hs[k]).1 <= hs[k + 1].0,
        hs.len() > 0 ==> from <= hs[0].0,
    ensures
        apply_regions(b, rs, p + line_offset(o, from)) == splice_lines(o, n, hs, from) + b.skip(de),
    decreases hs.len(),
{
    let om = b.subrange(p, de);
    lemma_line_offset_mono(o, from, o.len() as int);
    assert(o.take(o.len() as int) =~= o);
    if hs.len() == 0 {
        lemma_lines_subrange(o, from, o.len() as int);
        assert(o.subrange(from, o.len() as int) =~= o.skip(from));
        let f = line_offset(o, from);
        assert(om.subrange(f, om.len() as int) =~= b.subrange(p + f, de));
        assert(b.skip(p + f) =~= b.subrange(p + f, de) + b.skip(de));
    } else {
        let h = hs[0];
        lemma_line_offset_mono(o, from, h.0);
        lemma_line_offset_mono(o, h.0, h.1);
        lemma_line_offset_mono(o, h.1, o.len() as int);
        lemma_lines_subrange(o, from, h.0);
        lemma_lines_subrange(n, h.2, h.3);
        let hs2 = hs.drop_first();
        let rs2 = rs.drop_first();
        assert(rs[0] == hunk_region(p, o, n, h));
        assert forall|k: int| 0 <= k < hs2.len() implies #[trigger] rs2[k] == hunk_region(p, o, n, hs2[k]) by {
            assert(rs2[k] == rs[k + 1]);
            assert(hs2[k] == hs[k + 1]);
        }
        assert forall|k: int| 0 <= k < hs2.len() implies {
            let h = #[trigger] hs2[k];
            &&& 0 <= h.0 <= h.1 <= o.len()
            &&& 0 <= h.2 <= h.3 <= n.len()
        } by {
            assert(hs2[k] == hs[k + 1]);
        }
        assert forall|k: int| 0 <= k < hs2.len() - 1 implies (#[trigger] hs2[k]).1 <= hs2[k + 1].0 by {
            assert(hs2[k] == hs[k + 1]);
            assert(hs2[k + 1] == hs[k + 2]);
        }
        if hs2.len() > 0 {
            assert(hs2[0] == hs[1]);
        }
        lemma_apply_hunks(b, p, de, o, n, hs2, rs2, h.1);
        let f0 = line_offset(o, from);
        let f1 = line_offset(o, h.0);
        assert(om.subrange(f0, f1) =~= b.subrange(p + f0, p + f1));
    }
}

/// The multi-region case of `lemma_regions_rebuild`.
proof fn lemma_rebuild_hunks(
    b: Seq<u8>,
    a: Seq<u8>,
    p: int,
    de: int,
    ie: int,
    o: Seq<Seq<u8>>,
    n: Seq<Seq<u8>>,
    hs: Seq<(int, int, int, int)>,
    rs: Seq<(int, int, Seq<u8>)>,
)
    requires
        0 <= p <= de <= b.len(),
        p <= ie <= a.len(),
        b.take(p) == a.take(p),
        b.skip(de) == a.skip(ie),
        o == split_lines(b.subrange(p, de)),
        n == split_lines(a.subrange(p, ie)),
        hs == hunks_from(o, n, 0, 0),
        hs.len() > 0,
        rs.len() == hs.len(),
        forall|k: int| 0 <= k < hs.len() ==> #[trigger] rs[k] == hunk_region(p, o, n, hs[k]),
    ensures
        apply_regions(b, rs, 0) == a,
        forall|k: int|
            0 <= k < rs.len() ==> 0 <= (#[trigger] rs[k]).0 && 0 <= rs[k].1 && rs[k].0 + rs[k].1
                <= b.len(),
        forall|k: int| 0 <= k < rs.len() - 1 ==> (#[trigger] rs[k]).0 + rs[k].1 <= rs[k + 1].0,
{
    let om = b.subrange(p, de);
    let nm = a.subrange(p, ie);
    lemma_split_lines(om);
    lemma_split_lines(nm);
    assert(o.subrange(0, 0) =~= n.subrange(0, 0));
    lemma_splice_hunks(o, n, 0, 0, 0, 0);
    assert(n.skip(0) =~= n);
    lemma_hunks_ordered(o, n, 0, 0);
    assert(o.take(o.len() as int) =~= o);
    lemma_rebuild_eq(b, a, p, de, ie, o, n, hs, rs);
    assert forall|k: int| 0 <= k < rs.len() implies 0 <= (#[trigger] rs[k]).0 && 0 <= rs[k].1
        && rs[k].0 + rs[k].1 <= b.len() by {
        let h = hs[k];
        assert(rs[k] == hunk_region(p, o, n, h));
        lemma_line_offset_mono(o, h.0, h.1);
        lemma_line_offset_mono(o, h.1, o.len() as int);
    }
    assert forall|k: int| 0 <= k < rs.len() - 1 implies (#[trigger] rs[k]).0 + rs[k].1 <= rs[k
        + 1].0 by {
        assert(rs[k] == hunk_region(p, o, n, hs[k]));
        assert(rs[k + 1] == hunk_region(p, o, n, hs[k + 1]));
        lemma_line_offset_mono(o, hs[k].0, hs[k].1);
        lemma_line_offset_mono(o, hs[k].1, hs[k + 1].0);
    }
}

proof fn lemma_rebuild_eq(
    b: Seq<u8>,
    a: Seq<u8>,
    p: int,
    de: int,
    ie: int,
    o: Seq<Seq<u8>>,
    n: Seq<Seq<u8>>,
    hs: Seq<(int, int, int, int)>,
    rs: Seq<(int, int, Seq<u8>)>,
)
    requires
        0 <= p <= de <= b.len(),
        p <= ie <= a.len(),
        b.take(p) == a.take(p),
        b.skip(de) == a.skip(ie),
        o == split_lines(b.subrange(p, de)),
        n == split_lines(a.subrange(p, ie)),
        o.flatten() == b.subrange(p, de),
        n.flatten() == a.subrange(p, ie),
        splice_lines(o, n, hs, 0) == n.flatten(),
        hs.len() > 0,
        rs.len() == hs.len(),
        forall|k: int| 0 <= k < hs.len() ==> #[trigger] rs[k] == hunk_region(p, o, n, hs[k]),
        forall|k: int|
            0 <= k < hs.len() ==> {
                let h = #[trigger] hs[k];
                &&& 0 <= h.0 <= h.1 <= o.len()
                &&& 0 <= h.2 <= h.3 <= n.len()
            },
        forall|k: int| 0 <= k < hs.len() - 1 ==> (#[trigger] hs[k]).1 <= hs[k + 1].0,
    ensures
        apply_regions(b, rs, 0) == a,
{
    let nm = a.subrange(p, ie);
    assert(o.take(0) =~= Seq::<Seq<u8>>::empty());
    lemma_apply_hunks(b, p, de, o, n, hs, rs, 0);
    lemma_line_offset_mono(o, 0, hs[0].0);
    let f = line_offset(o, hs[0].0);
    assert(rs[0] == hunk_region(p, o, n, hs[0]));
    assert(b.subrange(0, p + f) =~= b.take(p) + b.subrange(p, p + f));
    assert(apply_regions(b, rs, 0) =~= b.take(p) + apply_regions(b, rs, p));
    assert(a =~= a.take(p) + nm + a.skip(ie));
}

/// Applying the regions to the old text, in order, gives the new text;
/// the regions lie inside the old text, in order and without overlap.
pub proof fn lemma_regions_rebuild(b: Seq<u8>, a: Seq<u8>, cursor: int, rs: Seq<(int, int, Seq<u8>)>)
    requires
        valid_utf8(b),
        valid_utf8(a),
        cursor >= 0,
        regions_spec(b, a, cursor, rs),
    ensures
        apply_regions(b, rs, 0) == a,
        forall|k: int|
            0 <= k < rs.len() ==> 0 <= (#[trigger] rs[k]).0 && 0 <= rs[k].1 && rs[k].0 + rs[k].1
                <= b.len(),
        forall|k: int| 0 <= k < rs.len() - 1 ==> (#[trigger] rs[k]).0 + rs[k].1 <= rs[k + 1].0,
{
    lemma_diff_envelope(b, a, cursor);
    match diff_envelope(b, a, cursor) {
        None => {
            assert(b.skip(0) =~= b);
        },
        Some((p, de, ie)) => {
            let om = b.subrange(p, de);
            let nm = a.subrange(p, ie);
            let o = split_lines(om);
            let n = split_lines(nm);
            let hs = hunks_from(o, n, 0, 0);
            if single_site(om, nm) || hs.len() <= 1 {
                let rs2 = rs.drop_first();
                assert(rs2 =~= Seq::<(int, int, Seq<u8>)>::empty());
                assert(rs[0] == (p, de - p, nm));
                assert(apply_regions(b, rs2, de) == b.skip(de));
                assert(apply_regions(b, rs, 0) == b.subrange(0, p) + nm + apply_regions(b, rs2, de));
                assert(b.subrange(0, p) =~= b.take(p));
                assert(a =~= a.take(p) + nm + a.skip(ie));
            } else {
                lemma_rebuild_hunks(b, a, p, de, ie, o, n, hs, rs);
            }
        },
    }
}

/// The regions of the change, as `regions_spec` states them.
fn decompose_regions<'a>(before: &'a str, after: &'a str, cursor_byte: usize) -> (r: Vec<
    EditRegion<'a>,
>)
    ensures
        regions_spec(before.spec_bytes(), after.spec_bytes(), cursor_byte as int, region_views(r@)),
{
    let diff = match diff_texts(before, after, cursor_byte) {
        None => {
            let r: Vec<EditRegion<'a>> = Vec::new();
            proof {
                assert(region_views(r@) =~= Seq::<(int, int, Seq<u8>)>::empty());
            }
            return r;
        },
        Some(d) => d,
    };
    let om = diff.deleted_text;
    let nm = diff.inserted_text;
    let base = diff.deleted_range.0;
    proof {
        encode_utf8_valid_utf8(before@);
        encode_utf8_valid_utf8(after@);
        lemma_diff_envelope(before.spec_bytes(), after.spec_bytes(), cursor_byte as int);
    }
    let ob = om.as_bytes();
    let nb = nm.as_bytes();
    let _total = before.as_bytes().len();
    if (ob.len() < 200 && nb.len() < 200 - ob.len()) || ob.len() == 0 || nb.len() == 0 {
        return single_region(base, ob.len(), nm);
    }
    let oo = line_offsets(ob);
    let no = line_offsets(nb);
    let hs = compute_hunks(ob, &oo, nb, &no);
    if hs.len() <= 1 {
        return single_region(base, ob.len(), nm);
    }
    let ghost o = split_lines(ob@);
    let ghost n = split_lines(nb@);
    let ghost hv = hunks_from(o, n, 0, 0);
    proof {
        lemma_hunks_ordered(o, n, 0, 0);
        lemma_split_lines(ob@);
        lemma_split_lines(nb@);
        lemma_line_offset_mono(o, 0, o.len() as int);
    }
    let mut regions: Vec<EditRegion<'a>> = Vec::new();
    let mut k: usize = 0;
    while k < hs.len()
        invariant
            hunk_views(hs@) == hv,
            hv == hunks_from(o, n, 0, 0),
            o == split_lines(ob@),
            n == split_lines(nb@),
            offsets_of(ob@, oo@),
            offsets_of(nb@, no@),
            ob@ == om.spec_bytes(),
            nb@ == nm.spec_bytes(),
            o.flatten() == ob@,
            n.flatten() == nb@,
            base + ob@.len() <= usize::MAX,
            forall|q: int|
                0 <= q < hv.len() ==> {
                    let h = #[trigger] hv[q];
                    &&& 0 <= h.0 <= h.1 <= o.len()
                    &&& 0 <= h.2 <= h.3 <= n.len()
                },
            k <= hs@.len(),
            region_views(regions@).len() == k,
            forall|q: int| 0 <= q < k ==> #[trigger] region_views(regions@)[q] == hunk_region(base as int, o, n, hv[q]),
        decreases hs@.len() - k,
    {
        let h = hs[k];
        proof {
            assert(hv[k as int] == hunk_view(h));
            lemma_line_offset_mono(o, h.0 as int, h.1 as int);
            lemma_line_offset_mono(o, h.1 as int, o.len() as int);
            lemma_line_offset_mono(n, h.2 as int, h.3 as int);
            lemma_line_offset_boundary(nm@, h.2 as int);
            lemma_line_offset_boundary(nm@, h.3 as int);
            lemma_line_offset_mono(n, h.3 as int, n.len() as int);
        }
        let offset = base + oo[h.0];
        let old_len = oo[h.1] - oo[h.0];
        let inserted = substr_bytes(nm, no[h.2], no[h.3]);
        let ghost before_push = regions@;
        regions.push(EditRegion { offset, old_len, inserted });
        proof {
            assert(region_views(regions@) =~= region_views(before_push).push(region_view(EditRegion { offset, old_len, inserted })));
        }
        k = k + 1;
    }
    proof {
        assert(region_views(regions@) =~= Seq::new(hv.len(), |q: int| hunk_region(base as int, o, n, hv[q])));
    }
    regions
}

/// Split the change from `before` to `after` into edit sites by greedy line
/// matching, so that a find-and-replace over many places gives one region
/// per place. Empty for identical texts; one region for a small or
/// one-sided change.
pub fn decompose_multi_site_diff<'a>(before: &'a str, after: &'a str, cursor_byte: usize) -> (r: Vec<
    EditRegion<'a>,
>)
    ensures
        regions_spec(before.spec_bytes(), after.spec_bytes(), cursor_byte as int, region_views(r@)),
        apply_regions(before.spec_bytes(), region_views(r@), 0) == after.spec_bytes(),
        forall|k: int|
            0 <= k < r@.len() ==> (#[trigger] r@[k]).offset + r@[k].old_len <= before.spec_bytes().len(),
        forall|k: int| 0 <= k < r@.len() - 1 ==> (#[trigger] r@[k]).offset + r@[k].old_len <= r@[k + 1].offset,
{
    let r = decompose_regions(before, after, cursor_byte);
    proof {
        encode_utf8_valid_utf8(before@);
        encode_utf8_valid_utf8(after@);
        lemma_regions_rebuild(before.spec_bytes(), after.spec_bytes(), cursor_byte as int, region_views(r@));
        assert forall|k: int| 0 <= k < r@.len() implies (#[trigger] r@[k]).offset + r@[k].old_len
            <= before.spec_bytes().len() by {
            assert(region_views(r@)[k] == region_view(r@[k]));
        }
        assert forall|k: int| 0 <= k < r@.len() - 1 implies (#[trigger] r@[k]).offset + r@[k].old_len
            <= r@[k + 1].offset by {
            assert(region_views(r@)[k] == region_view(r@[k]));
            assert(region_views(r@)[k + 1] == region_view(r@[k + 1]));
        }
    }
    r
}

/// Where the caret goes after the editor's text was replaced wholesale: the
/// old caret's line, clamped to the last line of the new text, and its
/// column, clamped to the last character of that line (0 on an empty line).
pub open spec fn reload_cursor_spec(old: Seq<char>, offset: int, new: Seq<char>) -> (i32, i32) {
    let (ol, oc) = crate::codec::byte_to_line_col_spec(old, offset);
    let n = crate::lines::starts_of(new, '\n').len() as int;
    let line = crate::codec::min_int(ol as int, n - 1);
    let len = crate::codec::line_chars(new, line).len() as int;
    let col = crate::codec::min_int(oc as int, if len > 0 { len - 1 } else { 0 });
    (crate::codec::sat_i32(line), crate::codec::sat_i32(col))
}

/// The caret position to restore after a wholesale text replacement (see
/// [`reload_cursor_spec`]).
pub fn reload_cursor_position(old_text: &str, old_cursor_offset: usize, new_text: &str) -> (r: crate::types::CharLineCol)
    ensures
        (r.line, r.col) == reload_cursor_spec(old_text@, old_cursor_offset as int, new_text@),
{
    let old_index = crate::codec::LineIndex::new(old_text);
    let old_lc = old_index.byte_to_line_col(old_text, old_cursor_offset);
    let new_index = crate::codec::LineIndex::new(new_text);
    proof {
        crate::codec::lemma_char_lines(new_text@);
        crate::lines::lemma_starts_shape(new_text@, '\n');
        crate::codec::lemma_position_nonneg(old_text@, old_cursor_offset as int);
    }
    let n = new_index.line_count();
    let max_line = n - 1;
    let ol = crate::codec::i32_to_usize(old_lc.line);
    let line = if ol < max_line {
        ol
    } else {
        max_line
    };
    let len = new_index.line_char_count(new_text, line);
    let oc = crate::codec::i32_to_usize(old_lc.col);
    let last = if len > 0 {
        len - 1
    } else {
        0
    };
    let col = if oc < last {
        oc
    } else {
        last
    };
    crate::types::CharLineCol::new(crate::codec::usize_to_i32(line), crate::codec::usize_to_i32(col))
}


/// The restored caret is always a position of the new text (one the
/// editor's `i32` positions can address): on one of its lines, and within
/// that line (or at column 0 of an empty line).
pub proof fn lemma_reload_cursor_in_text(old: Seq<char>, offset: int, new: Seq<char>)
    requires
        offset >= 0,
        new.len() < i32::MAX,
    ensures
        ({
            let (l, c) = reload_cursor_spec(old, offset, new);
            let n = crate::lines::starts_of(new, '\n').len();
            &&& 0 <= l < n
            &&& 0 <= c
            &&& (c == 0 || c < crate::codec::line_chars(new, l as int).len())
        }),
{
    crate::lines::lemma_starts_shape(new, '\n');
    crate::codec::lemma_position_nonneg(old, offset);
    crate::codec::lemma_char_lines(new);
    let n = crate::lines::starts_of(new, '\n').len() as int;
    assert(n <= new.len() + 1) by {
        crate::lines::lemma_starts_count_bound(crate::lines::starts_of(new, '\n'), new.len() as int, n - 1);
    }
    let (ol, oc) = crate::codec::byte_to_line_col_spec(old, offset);
    let line = crate::codec::min_int(ol as int, n - 1);
    assert(0 <= line < n);
    assert(crate::codec::line_chars(new, line).len() <= new.len());
}


} // verus!
