//! The line structure of a sequence: where each line starts.

use vstd::prelude::*;
use vstd::utf8::*;
use crate::text::{byte_at, lemma_byte_at_step, lemma_scalar_bytes, lemma_width_bounds};

verus! {

broadcast use vstd::seq::group_seq_axioms;

/// Start offsets of the lines of `s`, where `nl` ends a line: `0`, then one
/// past every occurrence of `nl`, in increasing order.
pub open spec fn starts_of<T>(s: Seq<T>, nl: T) -> Seq<int>
    decreases s.len(),
{
    if s.len() == 0 {
        seq![0int]
    } else {
        let p = starts_of(s.drop_last(), nl);
        if s.last() == nl {
            p.push(s.len() as int)
        } else {
            p
        }
    }
}

pub open spec fn shift(s: Seq<int>, d: int) -> Seq<int> {
    s.map_values(|v: int| v + d)
}

pub open spec fn strictly_increasing(s: Seq<int>) -> bool {
    forall|i: int, j: int| 0 <= i < j < s.len() ==> s[i] < s[j]
}

/// Basic shape of the line starts.
pub proof fn lemma_starts_shape<T>(s: Seq<T>, nl: T)
    ensures
        starts_of(s, nl).len() >= 1,
        starts_of(s, nl)[0] == 0,
        strictly_increasing(starts_of(s, nl)),
        forall|i: int| 0 <= i < starts_of(s, nl).len() ==> 0 <= #[trigger] starts_of(s, nl)[i] <= s.len(),
        forall|i: int| 1 <= i < starts_of(s, nl).len() ==> s[#[trigger] starts_of(s, nl)[i] - 1] == nl,
    decreases s.len(),
{
    if s.len() > 0 {
        let d = s.drop_last();
        lemma_starts_shape(d, nl);
        let p = starts_of(d, nl);
        assert forall|i: int| 1 <= i < p.len() implies s[#[trigger] p[i] - 1] == nl by {
            assert(s[p[i] - 1] == d[p[i] - 1]);
        }
    }
}

/// Every occurrence of `nl` is followed by a line start.
pub proof fn lemma_starts_complete<T>(s: Seq<T>, nl: T, j: int)
    requires
        0 <= j < s.len(),
        s[j] == nl,
    ensures
        starts_of(s, nl).contains(j + 1),
    decreases s.len(),
{
    let d = s.drop_last();
    if j < s.len() - 1 {
        assert(d[j] == s[j]);
        lemma_starts_complete(d, nl, j);
        let i = choose|i: int| 0 <= i < starts_of(d, nl).len() && starts_of(d, nl)[i] == j + 1;
        assert(starts_of(s, nl)[i] == j + 1);
    } else {
        let st = starts_of(s, nl);
        assert(st[st.len() - 1] == j + 1);
    }
}

/// Line starts of a concatenation.
pub proof fn lemma_starts_concat<T>(x: Seq<T>, y: Seq<T>, nl: T)
    ensures
        starts_of(x + y, nl) == starts_of(x, nl) + shift(starts_of(y, nl).drop_first(), x.len() as int),
    decreases y.len(),
{
    if y.len() == 0 {
        assert(x + y =~= x);
        assert(starts_of(y, nl) =~= seq![0int]);
        assert(shift(starts_of(y, nl).drop_first(), x.len() as int) =~= Seq::<int>::empty());
        assert(starts_of(x, nl) + Seq::<int>::empty() =~= starts_of(x, nl));
    } else {
        let yd = y.drop_last();
        assert((x + y).drop_last() =~= x + yd);
        lemma_starts_concat(x, yd, nl);
        lemma_starts_shape(yd, nl);
        let py = starts_of(yd, nl);
        assert((x + y).last() == y.last());
        if y.last() == nl {
            assert(starts_of(y, nl) == py.push(y.len() as int));
            assert(shift(py.push(y.len() as int).drop_first(), x.len() as int) =~= shift(
                py.drop_first(),
                x.len() as int,
            ).push((x.len() + y.len()) as int));
            assert(starts_of(x + y, nl) =~= starts_of(x, nl) + shift(
                starts_of(y, nl).drop_first(),
                x.len() as int,
            ));
        } else {
            assert(starts_of(y, nl) == py);
        }
    }
}

/// The line starts of a prefix are the line starts at or below its end.
pub proof fn lemma_starts_prefix<T>(s: Seq<T>, p: int, nl: T)
    requires
        0 <= p <= s.len(),
    ensures
        starts_of(s.take(p), nl) == starts_of(s, nl).take(starts_of(s.take(p), nl).len() as int),
        starts_of(s.take(p), nl).len() <= starts_of(s, nl).len(),
        forall|i: int|
            0 <= i < starts_of(s.take(p), nl).len() ==> #[trigger] starts_of(s, nl)[i] <= p,
        forall|i: int|
            starts_of(s.take(p), nl).len() <= i < starts_of(s, nl).len() ==> #[trigger] starts_of(
                s,
                nl,
            )[i] > p,
        starts_of(s, nl).skip(starts_of(s.take(p), nl).len() as int) == shift(
            starts_of(s.skip(p), nl).drop_first(),
            p,
        ),
{
    assert(s =~= s.take(p) + s.skip(p));
    lemma_starts_concat(s.take(p), s.skip(p), nl);
    lemma_starts_shape(s.take(p), nl);
    lemma_starts_shape(s.skip(p), nl);
    let a = starts_of(s.take(p), nl);
    let b = shift(starts_of(s.skip(p), nl).drop_first(), p);
    assert(starts_of(s, nl) == a + b);
    assert((a + b).take(a.len() as int) =~= a);
    assert((a + b).skip(a.len() as int) =~= b);
    assert forall|i: int| a.len() <= i < (a + b).len() implies #[trigger] (a + b)[i] > p by {
        let q = starts_of(s.skip(p), nl);
        assert((a + b)[i] == q[i - a.len() + 1] + p);
    }
}

/// Number of leading elements of an increasing sequence that are at most `x`.
pub open spec fn count_le(s: Seq<int>, x: int) -> int
    decreases s.len(),
{
    if s.len() == 0 {
        0
    } else if s.last() <= x {
        s.len() as int
    } else {
        count_le(s.drop_last(), x)
    }
}

pub proof fn lemma_count_le(s: Seq<int>, x: int)
    requires
        strictly_increasing(s),
    ensures
        0 <= count_le(s, x) <= s.len(),
        forall|i: int| 0 <= i < count_le(s, x) ==> #[trigger] s[i] <= x,
        forall|i: int| count_le(s, x) <= i < s.len() ==> #[trigger] s[i] > x,
    decreases s.len(),
{
    if s.len() > 0 {
        let d = s.drop_last();
        assert(strictly_increasing(d));
        lemma_count_le(d, x);
        assert forall|i: int| 0 <= i < d.len() implies #[trigger] s[i] == d[i] by {}
        if s.last() > x {
            assert forall|i: int| count_le(s, x) <= i < s.len() implies #[trigger] s[i] > x by {
                if i < d.len() {
                    assert(d[i] > x);
                }
            }
            assert forall|i: int| 0 <= i < count_le(s, x) implies #[trigger] s[i] <= x by {
                assert(d[i] <= x);
            }
        }
        if s.last() <= x {
            assert forall|i: int| 0 <= i < s.len() implies #[trigger] s[i] <= x by {
                if i < s.len() - 1 {
                    assert(s[i] < s[s.len() - 1]);
                }
            }
        }
    }
}

pub proof fn lemma_count_le_unique(s: Seq<int>, x: int, c: int)
    requires
        strictly_increasing(s),
        0 <= c <= s.len(),
        forall|i: int| 0 <= i < c ==> #[trigger] s[i] <= x,
        forall|i: int| c <= i < s.len() ==> #[trigger] s[i] > x,
    ensures
        count_le(s, x) == c,
{
    lemma_count_le(s, x);
    let r = count_le(s, x);
    if r < c {
        assert(s[r] > x);
    } else if r > c {
        assert(s[c] > x);
    }
}

/// Integer view of a vector of offsets.
pub open spec fn ints(v: Seq<usize>) -> Seq<int> {
    v.map_values(|e: usize| e as int)
}

pub proof fn lemma_ints_push(v: Seq<usize>, x: usize)
    ensures
        ints(v.push(x)) == ints(v).push(x as int),
{
    assert(ints(v.push(x)) =~= ints(v).push(x as int));
}

/// A sequence without `nl` is a single line.
pub proof fn lemma_starts_no_nl<T>(s: Seq<T>, nl: T)
    requires
        forall|j: int| 0 <= j < s.len() ==> s[j] != nl,
    ensures
        starts_of(s, nl) == seq![0int],
{
    lemma_starts_shape(s, nl);
    let st = starts_of(s, nl);
    if st.len() > 1 {
        assert(s[st[1] - 1] == nl);
    }
    assert(st =~= seq![0int]);
}

/// Byte line starts of an encoded text are the byte offsets of its character line starts.
pub proof fn lemma_starts_encode(cs: Seq<char>)
    ensures
        starts_of(encode_utf8(cs), 10u8) == starts_of(cs, '\n').map_values(|k: int| byte_at(cs, k)),
    decreases cs.len(),
{
    let n = cs.len() as int;
    if n == 0 {
        assert(encode_utf8(cs) =~= Seq::<u8>::empty());
        assert(cs.take(0) =~= Seq::<char>::empty());
        assert(starts_of(cs, '\n').map_values(|k: int| byte_at(cs, k)) =~= seq![0int]);
    } else {
        let d = cs.drop_last();
        let c = cs[n - 1];
        lemma_starts_encode(d);
        lemma_byte_at_step(cs, n - 1);
        assert(cs.take(n) =~= cs);
        assert(cs.take(n - 1) =~= d);
        let e = encode_scalar(c as u32);
        lemma_starts_concat(encode_utf8(d), e, 10u8);
        lemma_starts_shape(d, '\n');
        let sd = starts_of(d, '\n');
        assert forall|i: int| 0 <= i < sd.len() implies byte_at(cs, #[trigger] sd[i]) == byte_at(d, sd[i]) by {
            assert(cs.take(sd[i]) =~= d.take(sd[i]));
        }
        lemma_width_bounds(c);
        if c == '\n' {
            lemma_scalar_bytes(c, 0);
            assert(e =~= seq![10u8]);
            assert(starts_of(e, 10u8) =~= seq![0int, 1int]) by {
                reveal_with_fuel(starts_of, 2);
                assert(e.drop_last() =~= Seq::<u8>::empty());
                assert(e.last() == 10u8);
            }
            assert(starts_of(cs, '\n').map_values(|k: int| byte_at(cs, k)) =~= starts_of(
                encode_utf8(cs),
                10u8,
            ));
        } else {
            assert forall|j: int| 0 <= j < e.len() implies e[j] != 10u8 by {
                lemma_scalar_bytes(c, j);
            }
            lemma_starts_no_nl(e, 10u8);
            assert(starts_of(cs, '\n').map_values(|k: int| byte_at(cs, k)) =~= starts_of(
                encode_utf8(cs),
                10u8,
            ));
        }
    }
}

/// A strictly increasing sequence within `[0, bound]` starting at 0 has
/// its `i`-th element at or above `i`.
pub proof fn lemma_starts_count_bound(s: Seq<int>, bound: int, i: int)
    requires
        strictly_increasing(s),
        s.len() > 0,
        s[0] >= 0,
        0 <= i < s.len(),
        forall|j: int| 0 <= j < s.len() ==> #[trigger] s[j] <= bound,
    ensures
        i <= s[i] <= bound,
    decreases i,
{
    if i > 0 {
        lemma_starts_count_bound(s, bound, i - 1);
        assert(s[i - 1] < s[i]);
    }
}

} // verus!
