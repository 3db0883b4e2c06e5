//! Per-keystroke latency tracking: a ring of frame timings and percentile
//! statistics over the frames it holds.

use crate::text::push_char;
use vstd::prelude::*;
use vstd::string::StringExecFns;

verus! {

broadcast use vstd::seq::group_seq_axioms;

/// A duration in microseconds.
#[derive(Debug, Clone, Copy, PartialEq, Eq, PartialOrd, Ord, Default)]
pub struct Microseconds(pub u64);

/// Timing breakdown of one keystroke.
#[derive(Debug, Clone, Copy, Default)]
pub struct FrameMetrics {
    pub context_build_us: Microseconds,
    pub engine_process_us: Microseconds,
    pub effects_dispatch_us: Microseconds,
    pub ui_update_us: Microseconds,
    pub total_us: Microseconds,
}

/// Ring buffer of frame metrics with a frame budget.
#[derive(Debug)]
pub struct PerfTracker {
    frames: Vec<FrameMetrics>,
    cursor: usize,
    /// Number of frames held (at most the capacity).
    pub count: usize,
    budget_us: Microseconds,
}

/// The values of `t` in nondecreasing order.
pub open spec fn nondecreasing(t: Seq<u64>) -> bool {
    forall|i: int, j: int| 0 <= i <= j < t.len() ==> t[i] <= t[j]
}

/// `t` sorted: the nondecreasing sequence with the same elements.
pub open spec fn sorted_of(t: Seq<u64>) -> Seq<u64> {
    choose|s: Seq<u64>| nondecreasing(s) && s.to_multiset() == t.to_multiset()
}

/// Rank used for percentile `pct` among `n` sorted values:
/// `ceil(pct * (n - 1) / 100)`, at most `n - 1`.
pub open spec fn percentile_index(pct: int, n: int) -> int {
    let k = (pct * (n - 1) + 99) / 100;
    if k < n - 1 {
        k
    } else {
        n - 1
    }
}

/// Decimal digits of `v`.
pub open spec fn decimal(v: nat) -> Seq<char>
    decreases v,
{
    if v < 10 {
        seq![((48 + v) as u8) as char]
    } else {
        decimal(v / 10).push(((48 + v % 10) as u8) as char)
    }
}

/// Append the decimal digits of `v`.
pub fn push_decimal(out: &mut String, v: u64)
    ensures
        final(out)@ == old(out)@ + decimal(v as nat),
    decreases v,
{
    if v >= 10 {
        push_decimal(out, v / 10);
    }
    let d = ((v % 10) as u8 + 48u8) as char;
    push_char(out, d);
    proof {
        if v < 10 {
            assert(old(out)@ + decimal(v as nat) =~= old(out)@.push(d));
        } else {
            assert(old(out)@ + decimal(v as nat) =~= old(out)@ + decimal((v / 10) as nat) + seq![d]);
        }
    }
}

/// A sequence with the same elements as `v`, in nondecreasing order.
fn sort_values(v: &Vec<u64>) -> (r: Vec<u64>)
    ensures
        nondecreasing(r@),
        r@.to_multiset() == v@.to_multiset(),
{
    broadcast use vstd::seq_lib::group_to_multiset_ensures;

    let mut out: Vec<u64> = Vec::new();
    let mut i: usize = 0;
    proof {
        assert(v@.take(0) =~= Seq::<u64>::empty());
    }
    while i < v.len()
        invariant
            i <= v@.len(),
            nondecreasing(out@),
            out@.to_multiset() == v@.take(i as int).to_multiset(),
        decreases v@.len() - i,
    {
        let x = v[i];
        let mut j: usize = 0;
        while j < out.len() && out[j] <= x
            invariant
                j <= out@.len(),
                forall|q: int| 0 <= q < j ==> #[trigger] out@[q] <= x,
            decreases out@.len() - j,
        {
            j = j + 1;
        }
        let ghost old_out = out@;
        out.insert(j, x);
        proof {
            assert(v@.take(i + 1) =~= v@.take(i as int).push(x));
            vstd::seq_lib::to_multiset_insert(old_out, j as int, x);
            vstd::seq_lib::to_multiset_build(v@.take(i as int), x);
            assert forall|a: int, b: int| 0 <= a <= b < out@.len() implies out@[a] <= out@[b] by {
                if a < j && b > j {
                    assert(out@[a] == old_out[a]);
                    assert(out@[b] == old_out[b - 1]);
                } else if a < j && b == j {
                    assert(out@[a] == old_out[a]);
                } else if a < j {
                    assert(out@[a] == old_out[a]);
                    assert(out@[b] == old_out[b]);
                } else if a == j && b > j {
                    assert(out@[b] == old_out[b - 1]);
                    assert(!(old_out[j as int] <= x));
                    assert(old_out[j as int] <= old_out[b - 1]);
                } else if a > j {
                    assert(out@[a] == old_out[a - 1]);
                    assert(out@[b] == old_out[b - 1]);
                }
            }
        }
        i = i + 1;
    }
    proof {
        assert(v@.take(v@.len() as int) =~= v@);
    }
    out
}

/// Two nondecreasing sequences with the same elements are equal.
pub proof fn lemma_sorted_equal(x: Seq<u64>, y: Seq<u64>)
    requires
        nondecreasing(x),
        nondecreasing(y),
        x.to_multiset() == y.to_multiset(),
    ensures
        x == y,
{
    let leq = |a: u64, b: u64| a <= b;
    assert(vstd::relations::total_ordering(leq));
    assert(vstd::relations::sorted_by(x, leq));
    assert(vstd::relations::sorted_by(y, leq));
    vstd::seq_lib::lemma_sorted_unique(x, y, leq);
}

/// The sorted form of `t`, with its defining facts.
pub proof fn lemma_sorted_of(t: Seq<u64>, s: Seq<u64>)
    requires
        nondecreasing(s),
        s.to_multiset() == t.to_multiset(),
    ensures
        sorted_of(t) == s,
{
    let w = sorted_of(t);
    assert(nondecreasing(w) && w.to_multiset() == t.to_multiset());
    lemma_sorted_equal(w, s);
}

impl PerfTracker {
    /// The frame slots.
    pub closed spec fn slots(&self) -> Seq<FrameMetrics> {
        self.frames@
    }

    /// The slot the next frame goes to.
    pub closed spec fn next_slot(&self) -> int {
        self.cursor as int
    }

    /// Number of frames held.
    pub closed spec fn held(&self) -> int {
        self.count as int
    }

    /// The frame budget.
    pub closed spec fn budget(&self) -> Microseconds {
        self.budget_us
    }

    /// Slots and counters are consistent: the held frames are the first
    /// `count` slots, and the next frame goes after them until the ring is
    /// full.
    pub closed spec fn wf(&self) -> bool {
        &&& self.frames@.len() > 0
        &&& self.cursor < self.frames@.len()
        &&& self.count <= self.frames@.len()
        &&& self.count < self.frames@.len() ==> self.cursor == self.count
    }

    /// Totals of the frames held.
    pub open spec fn totals(&self) -> Seq<u64> {
        self.slots().take(self.held()).map_values(|f: FrameMetrics| f.total_us.0)
    }

    /// An empty tracker with `capacity` slots.
    pub fn new(capacity: usize, budget_us: Microseconds) -> (r: Self)
        requires
            capacity > 0,
        ensures
            r.wf(),
            r.held() == 0,
            r.slots().len() == capacity,
            r.next_slot() == 0,
            r.budget() == budget_us,
    {
        let mut frames: Vec<FrameMetrics> = Vec::new();
        let zero = Microseconds(0);
        let mut i: usize = 0;
        while i < capacity
            invariant
                i <= capacity,
                frames@.len() == i,
            decreases capacity - i,
        {
            frames.push(
                FrameMetrics {
                    context_build_us: zero,
                    engine_process_us: zero,
                    effects_dispatch_us: zero,
                    ui_update_us: zero,
                    total_us: zero,
                },
            );
            i = i + 1;
        }
        PerfTracker { frames, cursor: 0, count: 0, budget_us }
    }

    /// Record one frame: it takes the next slot, the cursor moves on round
    /// the ring, and the count grows until the ring is full.
    pub fn record(&mut self, metrics: FrameMetrics)
        requires
            old(self).wf(),
        ensures
            final(self).wf(),
            final(self).slots() == old(self).slots().update(old(self).next_slot(), metrics),
            final(self).next_slot() == (old(self).next_slot() + 1) % (old(self).slots().len() as int),
            final(self).held() == if old(self).held() < old(self).slots().len() {
                old(self).held() + 1
            } else {
                old(self).held()
            },
            final(self).budget() == old(self).budget(),
    {
        let c = self.cursor;
        self.frames.set(c, metrics);
        let len = self.frames.len();
        self.cursor = if c == len - 1 {
            0
        } else {
            c + 1
        };
        proof {
            if c == len - 1 {
                vstd::arithmetic::div_mod::lemma_mod_self_0(len as int);
            } else {
                vstd::arithmetic::div_mod::lemma_small_mod((c + 1) as nat, len as nat);
            }
        }
        if self.count < self.frames.len() {
            self.count = self.count + 1;
        }
    }

    /// `(p50, p95, p99, max)` of the totals held; zeros when none is.
    pub fn percentiles(&self) -> (r: (Microseconds, Microseconds, Microseconds, Microseconds))
        requires
            self.wf(),
        ensures
            self.held() == 0 ==> r == (Microseconds(0), Microseconds(0), Microseconds(0), Microseconds(0)),
            self.held() > 0 ==> ({
                let s = sorted_of(self.totals());
                let n = self.held();
                &&& r.0 == Microseconds(s[percentile_index(50, n)])
                &&& r.1 == Microseconds(s[percentile_index(95, n)])
                &&& r.2 == Microseconds(s[percentile_index(99, n)])
                &&& r.3 == Microseconds(s[n - 1])
            }),
    {
        if self.count == 0 {
            return (Microseconds(0), Microseconds(0), Microseconds(0), Microseconds(0));
        }
        let mut totals: Vec<u64> = Vec::new();
        let mut i: usize = 0;
        while i < self.count
            invariant
                self.wf(),
                i <= self.count,
                totals@ == self.totals().take(i as int),
            decreases self.count - i,
        {
            totals.push(self.frames[i].total_us.0);
            proof {
                assert(self.totals().take(i + 1) =~= self.totals().take(i as int).push(
                    self.frames@[i as int].total_us.0,
                ));
            }
            i = i + 1;
        }
        proof {
            assert(self.totals().take(self.count as int) =~= self.totals());
        }
        let sorted = sort_values(&totals);
        proof {
            lemma_sorted_of(self.totals(), sorted@);
            vstd::seq_lib::to_multiset_len(sorted@);
            vstd::seq_lib::to_multiset_len(totals@);
        }
        let n = sorted.len();
        let i50 = Self::index_for(50, n);
        let i95 = Self::index_for(95, n);
        let i99 = Self::index_for(99, n);
        (
            Microseconds(sorted[i50]),
            Microseconds(sorted[i95]),
            Microseconds(sorted[i99]),
            Microseconds(sorted[n - 1]),
        )
    }

    /// `percentile_index(pct, n)`.
    fn index_for(pct: usize, n: usize) -> (r: usize)
        requires
            n > 0,
            pct <= 100,
        ensures
            r == percentile_index(pct as int, n as int),
            r < n,
    {
        let m = n - 1;
        let pw = pct as u128;
        let mw = m as u128;
        proof {
            assert(pw * mw <= 100 * mw) by (nonlinear_arith)
                requires
                    pw <= 100,
            ;
        }
        let k = (pw * mw + 99) / 100;
        if k < m as u128 {
            k as usize
        } else {
            m
        }
    }

    /// Forget the frames held.
    pub fn reset(&mut self)
        requires
            old(self).wf(),
        ensures
            final(self).wf(),
            final(self).held() == 0,
            final(self).next_slot() == 0,
            final(self).slots() == old(self).slots(),
            final(self).budget() == old(self).budget(),
    {
        self.count = 0;
        self.cursor = 0;
    }

    /// The `:perf` report: frame count, percentiles, maximum and budget.
    pub fn format_report(&self) -> (r: String)
        requires
            self.wf(),
        ensures
            r@ == self.report_text(),
    {
        let (p50, p95, p99, max) = self.percentiles();
        let mut out = String::new();
        out.append(":perf (");
        push_decimal(&mut out, self.count as u64);
        out.append(" frames)\n  p50: ");
        push_decimal(&mut out, p50.0);
        out.append("us\n  p95: ");
        push_decimal(&mut out, p95.0);
        out.append("us\n  p99: ");
        push_decimal(&mut out, p99.0);
        out.append("us\n  max: ");
        push_decimal(&mut out, max.0);
        out.append("us\n  budget: ");
        push_decimal(&mut out, self.budget_us.0);
        out.append("us");
        out
    }

    /// The `:perf` report: frames held, percentiles and budget.
    pub open spec fn report_text(&self) -> Seq<char> {
        let (p50, p95, p99, max) = self.percentile_values();
        ":perf ("@ + decimal(self.held() as nat) + " frames)\n  p50: "@ + decimal(p50 as nat) + "us\n  p95: "@
            + decimal(p95 as nat) + "us\n  p99: "@ + decimal(p99 as nat) + "us\n  max: "@ + decimal(max as nat)
            + "us\n  budget: "@ + decimal(self.budget().0 as nat) + "us"@
    }

    /// The values `percentiles` returns.
    pub open spec fn percentile_values(&self) -> (u64, u64, u64, u64) {
        if self.held() == 0 {
            (0, 0, 0, 0)
        } else {
            let s = sorted_of(self.totals());
            let n = self.held();
            (
                s[percentile_index(50, n)],
                s[percentile_index(95, n)],
                s[percentile_index(99, n)],
                s[n - 1],
            )
        }
    }
}

/// Number of leading elements of `s` that are at most `x`.
pub open spec fn count_at_most(s: Seq<u64>, x: u64) -> nat
    decreases s.len(),
{
    if s.len() == 0 || s[0] > x {
        0
    } else {
        1 + count_at_most(s.drop_first(), x)
    }
}

proof fn lemma_count_at_most(s: Seq<u64>, x: u64)
    requires
        nondecreasing(s),
    ensures
        count_at_most(s, x) <= s.len(),
        forall|i: int| 0 <= i < count_at_most(s, x) ==> #[trigger] s[i] <= x,
        forall|i: int| count_at_most(s, x) <= i < s.len() ==> #[trigger] s[i] > x,
    decreases s.len(),
{
    if s.len() > 0 && s[0] <= x {
        let d = s.drop_first();
        lemma_count_at_most(d, x);
        assert forall|i: int| 0 <= i < count_at_most(s, x) implies #[trigger] s[i] <= x by {
            if i > 0 {
                assert(s[i] == d[i - 1]);
            }
        }
        assert forall|i: int| count_at_most(s, x) <= i < s.len() implies #[trigger] s[i] > x by {
            assert(s[i] == d[i - 1]);
        }
    } else if s.len() > 0 {
        assert forall|i: int| 0 <= i < s.len() implies #[trigger] s[i] > x by {
            assert(s[0] <= s[i]);
        }
    }
}

/// Every sequence has a sorted form.
pub proof fn lemma_sorted_exists(t: Seq<u64>)
    ensures
        nondecreasing(sorted_of(t)),
        sorted_of(t).to_multiset() == t.to_multiset(),
        sorted_of(t).len() == t.len(),
    decreases t.len(),
{
    broadcast use vstd::seq_lib::group_to_multiset_ensures;

    if t.len() == 0 {
        let e = Seq::<u64>::empty();
        assert(t =~= e);
        assert(nondecreasing(e) && e.to_multiset() == t.to_multiset());
    } else {
        let d = t.drop_last();
        lemma_sorted_exists(d);
        let s0 = sorted_of(d);
        let x = t.last();
        lemma_count_at_most(s0, x);
        let j = count_at_most(s0, x) as int;
        let s = s0.insert(j, x);
        assert(t =~= d.push(x));
        assert forall|a: int, b: int| 0 <= a <= b < s.len() implies s[a] <= s[b] by {
            if a < j && b > j {
                assert(s[a] == s0[a]);
                assert(s[b] == s0[b - 1]);
            } else if a < j && b == j {
                assert(s[a] == s0[a]);
            } else if a < j {
                assert(s[a] == s0[a]);
                assert(s[b] == s0[b]);
            } else if a == j && b > j {
                assert(s[b] == s0[b - 1]);
            } else if a > j {
                assert(s[a] == s0[a - 1]);
                assert(s[b] == s0[b - 1]);
            }
        }
        assert(nondecreasing(s) && s.to_multiset() == t.to_multiset());
    }
    vstd::seq_lib::to_multiset_len(sorted_of(t));
    vstd::seq_lib::to_multiset_len(t);
}

/// The percentiles are ordered: p50 <= p95 <= p99 <= max.
pub proof fn lemma_percentiles_ordered(t: Seq<u64>)
    requires
        t.len() > 0,
    ensures
        ({
            let n = t.len() as int;
            let st = sorted_of(t);
            &&& st[percentile_index(50, n)] <= st[percentile_index(95, n)]
            &&& st[percentile_index(95, n)] <= st[percentile_index(99, n)]
            &&& st[percentile_index(99, n)] <= st[n - 1]
        }),
{
    lemma_sorted_exists(t);
    let n = t.len() as int;
    assert(50 * (n - 1) <= 95 * (n - 1) <= 99 * (n - 1)) by (nonlinear_arith)
        requires
            n >= 1,
    ;
    assert((50 * (n - 1) + 99) / 100 <= (95 * (n - 1) + 99) / 100) by (nonlinear_arith)
        requires
            50 * (n - 1) <= 95 * (n - 1),
    ;
    assert((95 * (n - 1) + 99) / 100 <= (99 * (n - 1) + 99) / 100) by (nonlinear_arith)
        requires
            95 * (n - 1) <= 99 * (n - 1),
    ;
}

/// Total of a frame.
pub open spec fn total_of(f: FrameMetrics) -> u64 {
    f.total_us.0
}

/// Slots, next slot and count held after recording `ms` in order, from
/// `(slots, next, held)`, each record as [`PerfTracker::record`] states it.
pub open spec fn record_run(slots: Seq<FrameMetrics>, next: int, held: int, ms: Seq<FrameMetrics>) -> (
    Seq<FrameMetrics>,
    int,
    int,
)
    decreases ms.len(),
{
    if ms.len() == 0 {
        (slots, next, held)
    } else {
        let (s, r, h) = record_run(slots, next, held, ms.drop_last());
        (
            s.update(r, ms.last()),
            (r + 1) % (s.len() as int),
            if h < s.len() {
                h + 1
            } else {
                h
            },
        )
    }
}

/// Where the frames of `ms` sit after they were recorded into `c` fresh
/// slots: in order from slot 0 until the ring is full; then the ring holds
/// the last `c`, the oldest at the next slot.
pub open spec fn ring_layout(c: int, ms: Seq<FrameMetrics>, s: Seq<FrameMetrics>, r: int, h: int) -> bool {
    let n = ms.len() as int;
    &&& s.len() == c
    &&& 0 <= r < c
    &&& n < c ==> r == n && h == n && forall|i: int| 0 <= i < n ==> #[trigger] s[i] == ms[i]
    &&& n >= c ==> {
        &&& h == c
        &&& forall|i: int| r <= i < c ==> #[trigger] s[i] == ms[n - c + i - r]
        &&& forall|i: int| 0 <= i < r ==> #[trigger] s[i] == ms[n - r + i]
    }
}

proof fn lemma_ring_layout(slots: Seq<FrameMetrics>, ms: Seq<FrameMetrics>)
    requires
        slots.len() > 0,
    ensures
        ({
            let (s, r, h) = record_run(slots, 0, 0, ms);
            ring_layout(slots.len() as int, ms, s, r, h)
        }),
    decreases ms.len(),
{
    let c = slots.len() as int;
    if ms.len() > 0 {
        let d = ms.drop_last();
        lemma_ring_layout(slots, d);
        let (s, r, h) = record_run(slots, 0, 0, d);
        let n = d.len() as int;
        let m = ms.last();
        let s2 = s.update(r, m);
        if r + 1 < c {
            vstd::arithmetic::div_mod::lemma_small_mod((r + 1) as nat, c as nat);
        } else {
            vstd::arithmetic::div_mod::lemma_mod_self_0(c);
        }
        let r2 = (r + 1) % c;
        if n + 1 < c {
            assert forall|i: int| 0 <= i < n + 1 implies #[trigger] s2[i] == ms[i] by {
                if i < n {
                    assert(ms[i] == d[i]);
                }
            }
        } else if n + 1 == c {
            assert(r2 == 0);
            assert forall|i: int| r2 <= i < c implies #[trigger] s2[i] == ms[n + 1 - c + i - r2] by {
                if i < n {
                    assert(ms[i] == d[i]);
                }
            }
        } else {
            if r + 1 < c {
                assert forall|i: int| r2 <= i < c implies #[trigger] s2[i] == ms[n + 1 - c + i - r2] by {
                    assert(s2[i] == s[i]);
                    assert(ms[n + 1 - c + i - r2] == d[n - c + i - r]);
                }
                assert forall|i: int| 0 <= i < r2 implies #[trigger] s2[i] == ms[n + 1 - r2 + i] by {
                    if i < r {
                        assert(ms[n + 1 - r2 + i] == d[n - r + i]);
                    }
                }
            } else {
                assert forall|i: int| r2 <= i < c implies #[trigger] s2[i] == ms[n + 1 - c + i - r2] by {
                    if i < r {
                        assert(ms[n + 1 - c + i - r2] == d[n - r + i]);
                    }
                }
            }
        }
    }
}

/// A ring recorded from fresh holds the last `min(n, capacity)` frames of
/// the `n` recorded: the count held is that number, and the totals held are
/// those frames' totals (in some order).
pub proof fn lemma_ring_holds_last_frames(slots: Seq<FrameMetrics>, ms: Seq<FrameMetrics>)
    requires
        slots.len() > 0,
    ensures
        ({
            let (s, r, h) = record_run(slots, 0, 0, ms);
            let k = if ms.len() < slots.len() { ms.len() as int } else { slots.len() as int };
            &&& h == k
            &&& s.take(h).map_values(|f: FrameMetrics| total_of(f)).to_multiset()
                == ms.skip(ms.len() - k).map_values(|f: FrameMetrics| total_of(f)).to_multiset()
        }),
{
    lemma_ring_layout(slots, ms);
    let c = slots.len() as int;
    let n = ms.len() as int;
    let (s, r, h) = record_run(slots, 0, 0, ms);
    let k = if n < c { n } else { c };
    let t = s.take(h).map_values(|f: FrameMetrics| total_of(f));
    let w = ms.skip(n - k).map_values(|f: FrameMetrics| total_of(f));
    if n < c {
        assert(t =~= w);
    } else {
        let a = w.take(c - r);
        let b = w.skip(c - r);
        assert(t =~= b + a) by {
            assert forall|i: int| 0 <= i < c implies #[trigger] t[i] == (b + a)[i] by {
                if i < r {
                    assert(t[i] == total_of(s[i]));
                    assert((b + a)[i] == b[i]);
                    assert(b[i] == w[c - r + i]);
                } else {
                    assert((b + a)[i] == a[i - r]);
                }
            }
        }
        assert(w =~= a + b);
        vstd::seq_lib::lemma_multiset_commutative(a, b);
        vstd::seq_lib::lemma_multiset_commutative(b, a);
    }
}

/// The largest of the totals held (the `max` of the percentiles) is one of
/// them, and no total held is larger.
pub proof fn lemma_percentile_max_is_max(t: Seq<u64>)
    requires
        t.len() > 0,
    ensures
        t.contains(sorted_of(t)[t.len() - 1]),
        forall|i: int| 0 <= i < t.len() ==> #[trigger] t[i] <= sorted_of(t)[t.len() - 1],
{
    broadcast use vstd::seq_lib::group_to_multiset_ensures;

    lemma_sorted_exists(t);
    let st = sorted_of(t);
    let top = st[t.len() - 1];
    assert(st.contains(top));
    assert(st.to_multiset().count(top) > 0);
    assert forall|i: int| 0 <= i < t.len() implies #[trigger] t[i] <= top by {
        assert(t.contains(t[i]));
        assert(t.to_multiset().count(t[i]) > 0);
        assert(st.contains(t[i]));
        let j = choose|j: int| 0 <= j < st.len() && st[j] == t[i];
        assert(st[j] <= st[st.len() - 1]);
    }
}

} // verus!
