//! Effect dispatch decisions.
//!
//! Text effects are first applied to a mirror of the document (with
//! auto-brace completion), and the editor receives one commit afterwards:
//! a single insert, delete or replace where there was exactly one mutation,
//! else a diff of the mirror against the text before the key. Cursor and
//! selection effects then follow, with each selection's paired cursor
//! suppressed.

use crate::auto_brace::choice_of;
use crate::auto_brace::compute_auto_brace_delete_extra;
use crate::auto_brace::compute_auto_brace_insert;
use crate::auto_brace::delete_extra_spec;
use crate::auto_brace::first_deleted_pair;
use crate::auto_brace::insert_choice;
use crate::auto_brace::AutoBraceAction;
use crate::auto_brace::AutoBraceSnapshot;
use crate::auto_brace::BraceChoice;
use crate::auto_brace::SyntaxRegion;
use crate::codec::byte_to_line_col_spec;
use crate::codec::min_int;
use crate::codec::DocumentView;
use crate::input::char_is_control;
use crate::input::unicode_control;
use crate::text::chars_within;
use crate::codec::LineIndex;
use crate::text::byte_at;
use crate::text::byte_len;
use crate::text::lemma_boundary_is_byte_at;
use crate::text::lemma_byte_at_full;
use crate::text::lemma_byte_at_is_boundary;
use crate::text::lemma_byte_at_mono;
use crate::text::lemma_encode_concat;
use crate::text::lemma_encode_injective;
use crate::text::lemma_encode_subrange;
use crate::text::str_byte_len;
use crate::text::substr_bytes;
use vstd::prelude::*;
use vstd::string::StrSliceExecFns;
use vstd::string::StringExecFns;
use vstd::string::StringSliceAdditionalSpecFns;
use vstd::utf8::encode_utf8;
use vstd::utf8::is_char_boundary;
use vstd::utf8::valid_utf8;
use crate::reconcile::apply_regions;
use crate::reconcile::common_prefix;
use crate::reconcile::common_prefix_len;
use crate::reconcile::decompose_multi_site_diff;
use crate::reconcile::lemma_regions_of;
use crate::reconcile::lemma_regions_rebuild;
use crate::reconcile::region_view;
use crate::reconcile::region_views;
use crate::reconcile::regions_of;

verus! {

// ---------------------------------------------------------------------------
// Commit strategy
// ---------------------------------------------------------------------------

/// How the mirrored mutations reach the editor: nothing, the single
/// mutation as it was, or a diff of the mirror against the text before the key.
#[derive(Debug)]
pub enum CommitStrategy {
    NoChange,
    Insert { offset: usize, content: String },
    Delete { start: usize, end: usize },
    Replace { start: usize, end: usize, content: String },
    Diff,
}

impl CommitStrategy {
    /// Record one more mutation: the first one is kept as it is, any
    /// further one turns the commit into a diff.
    pub fn add_mutation(self, new: CommitStrategy) -> (r: CommitStrategy)
        ensures
            self is NoChange ==> r == new,
            !(self is NoChange) ==> r is Diff,
    {
        match self {
            CommitStrategy::NoChange => new,
            _ => CommitStrategy::Diff,
        }
    }
}

// ---------------------------------------------------------------------------
// Selection / cursor pairing
// ---------------------------------------------------------------------------

/// The engine follows each selection effect with a cursor effect at the
/// selection's head; placing the selection already put the caret there, so
/// that cursor effect is suppressed. This counts the selections still
/// waiting for their cursor.
#[derive(Debug, Clone, Copy, PartialEq, Eq, Structural)]
pub enum SelectionPairing {
    Idle,
    AwaitingCursor { count: u32 },
}

impl SelectionPairing {
    /// Number of selections waiting for their cursor effect.
    pub open spec fn pending(self) -> nat {
        match self {
            SelectionPairing::Idle => 0,
            SelectionPairing::AwaitingCursor { count } => count as nat,
        }
    }

    /// A waiting state counts at least one selection.
    pub open spec fn wf(self) -> bool {
        self matches SelectionPairing::AwaitingCursor { count } ==> count >= 1
    }

    /// A selection effect arrived.
    pub fn on_set_selection(self) -> (r: Self)
        requires
            self.wf(),
            self.pending() < u32::MAX,
        ensures
            r.wf(),
            r.pending() == self.pending() + 1,
    {
        match self {
            SelectionPairing::Idle => SelectionPairing::AwaitingCursor { count: 1 },
            SelectionPairing::AwaitingCursor { count } => SelectionPairing::AwaitingCursor { count: count + 1 },
        }
    }

    /// A cursor effect was consumed (or a clear ended the selection).
    pub fn on_consume_cursor(self) -> (r: Self)
        requires
            self.wf(),
        ensures
            r.wf(),
            r.pending() == (if self.pending() > 0 {
                self.pending() - 1
            } else {
                0
            }),
            r.pending() == 0 ==> r is Idle,
    {
        match self {
            SelectionPairing::Idle => SelectionPairing::Idle,
            SelectionPairing::AwaitingCursor { count } => {
                if count == 1 {
                    SelectionPairing::Idle
                } else {
                    SelectionPairing::AwaitingCursor { count: count - 1 }
                }
            },
        }
    }

    /// Whether the next cursor effect belongs to a selection.
    pub fn should_suppress_cursor(&self) -> (r: bool)
        requires
            self.wf(),
        ensures
            r == (self.pending() > 0),
    {
        matches!(self, SelectionPairing::AwaitingCursor { .. })
    }
}

// ---------------------------------------------------------------------------
// Text mirror
// ---------------------------------------------------------------------------

/// `b` with bytes `[start, end)` replaced by `ins`.
pub open spec fn splice(b: Seq<u8>, start: int, end: int, ins: Seq<u8>) -> Seq<u8> {
    b.take(start) + ins + b.skip(end)
}

/// Both ends of a byte range are character boundaries of `b`, in order.
pub open spec fn valid_range(b: Seq<u8>, start: int, end: int) -> bool {
    &&& 0 <= start <= end <= b.len()
    &&& is_char_boundary(b, start)
    &&& is_char_boundary(b, end)
}

/// `text` with bytes `[start, end)` replaced by `content`.
pub fn splice_text(text: &str, start: usize, end: usize, content: &str) -> (r: String)
    requires
        valid_range(text.spec_bytes(), start as int, end as int),
    ensures
        encode_utf8(r@) == splice(text.spec_bytes(), start as int, end as int, content.spec_bytes()),
{
    let len = str_byte_len(text);
    proof {
        lemma_byte_at_full(text@);
        lemma_byte_at_is_boundary(text@, text@.len() as int);
        lemma_byte_at_is_boundary(text@, 0);
    }
    let head = substr_bytes(text, 0, start);
    let tail = substr_bytes(text, end, len);
    let mut out = String::new();
    out.append(head);
    out.append(content);
    out.append(tail);
    proof {
        lemma_encode_concat(head@, content@);
        lemma_encode_concat(head@ + content@, tail@);
        assert(out@ == head@ + content@ + tail@);
        let b = text.spec_bytes();
        assert(b.subrange(0, start as int) =~= b.take(start as int));
        assert(b.subrange(end as int, len as int) =~= b.skip(end as int));
    }
    out
}

/// The mirror of the document that text effects are applied to before
/// anything reaches the editor, with its line index and the commit built so
/// far.
pub struct TextMirror {
    pub text: String,
    pub line_index: LineIndex,
    pub strategy: CommitStrategy,
    pub mutated: bool,
}

impl TextMirror {
    /// The line index describes the mirrored text.
    pub open spec fn wf(&self) -> bool {
        self.line_index.describes(encode_utf8(self.text@))
    }

    /// A mirror of `text`, reusing `hint` as its line index where one is
    /// given (it must describe `text`).
    pub fn new(text: &str, hint: Option<LineIndex>) -> (r: Self)
        requires
            hint matches Some(h) ==> h.describes(text.spec_bytes()),
        ensures
            r.wf(),
            r.text@ == text@,
            r.strategy is NoChange,
            !r.mutated,
    {
        let line_index = match hint {
            Some(h) => h,
            None => LineIndex::new(text),
        };
        TextMirror { text: text.to_owned(), line_index, strategy: CommitStrategy::NoChange, mutated: false }
    }

    /// Replace bytes `[start, end)` of the mirror by `content`, keeping the
    /// line index in step. The commit strategy is left to the caller.
    fn splice_in(&mut self, start: usize, end: usize, content: &str)
        requires
            old(self).wf(),
            valid_range(encode_utf8(old(self).text@), start as int, end as int),
            encode_utf8(old(self).text@).len() + content.spec_bytes().len() <= usize::MAX,
        ensures
            final(self).wf(),
            encode_utf8(final(self).text@) == splice(
                encode_utf8(old(self).text@),
                start as int,
                end as int,
                content.spec_bytes(),
            ),
            final(self).strategy == old(self).strategy,
            final(self).mutated == old(self).mutated,
    {
        let ghost b = encode_utf8(self.text@);
        let new_text = splice_text(self.text.as_str(), start, end, content);
        proof {
            crate::lines::lemma_starts_shape(b, 10u8);
        }
        self.line_index.apply_delete(start, end);
        let ghost mid = b.take(start as int) + b.skip(end as int);
        proof {
            if start == end {
                assert(mid =~= b);
            }
            crate::lines::lemma_starts_shape(mid, 10u8);
            assert(mid.take(start as int) =~= b.take(start as int));
            assert(mid.skip(start as int) =~= b.skip(end as int));
            assert(self.line_index.describes(mid));
        }
        self.line_index.apply_insert(start, content);
        proof {
            assert(mid.take(start as int) + content.spec_bytes() + mid.skip(start as int) =~= splice(
                b,
                start as int,
                end as int,
                content.spec_bytes(),
            ));
            assert(self.line_index.describes(
                mid.take(start as int) + content.spec_bytes() + mid.skip(start as int),
            ));
        }
        self.text = new_text;
    }
}

// ---------------------------------------------------------------------------
// Text effects on the mirror
// ---------------------------------------------------------------------------

/// Whether an inserted text goes through auto-brace completion: the
/// dispatch allows it, auto-brace is on, and the text is one character that
/// is not a control character (typing, not pasting).
pub open spec fn brace_candidate(content: Seq<char>, eligible: bool, enabled: bool) -> bool {
    eligible && enabled && content.len() == 1 && !unicode_control(content[0])
}

/// Whether [`TextMirror::apply_insert_effect`] consults auto-brace for this
/// insert (so the caller knows to query the syntax region first).
pub fn auto_brace_applies(content: &str, eligible: bool, snapshot: &AutoBraceSnapshot) -> (r: bool)
    ensures
        r == brace_candidate(content@, eligible, snapshot.enabled),
{
    if !eligible || !snapshot.enabled || content.unicode_len() != 1 {
        return false;
    }
    !char_is_control(content.get_char(0))
}

/// Byte offset reached from byte `offset` by moving over `m` characters, or
/// to the end of the text.
pub open spec fn advance_chars(cs: Seq<char>, offset: int, m: int) -> int {
    let k = chars_within(cs, offset);
    byte_at(cs, min_int(k + m, cs.len() as int))
}

/// Every close key fits after the text and an insert of `n` bytes.
pub open spec fn room_for_insert(b: Seq<u8>, n: int, pv: Seq<(Seq<char>, Seq<char>)>) -> bool {
    &&& b.len() + n <= usize::MAX
    &&& forall|i: int| 0 <= i < pv.len() ==> b.len() + n + #[trigger] encode_utf8(pv[i].1).len() <= usize::MAX
}

impl TextMirror {
    /// Record a mutation in the commit strategy.
    fn record(&mut self, m: CommitStrategy)
        ensures
            final(self).text == old(self).text,
            final(self).line_index == old(self).line_index,
            final(self).mutated == old(self).mutated,
            old(self).strategy is NoChange ==> final(self).strategy == m,
            !(old(self).strategy is NoChange) ==> final(self).strategy is Diff,
    {
        let mut s = CommitStrategy::NoChange;
        std::mem::swap(&mut s, &mut self.strategy);
        self.strategy = s.add_mutation(m);
    }

    /// Insert `content` at `offset` without auto-brace.
    pub fn insert_plain(&mut self, offset: usize, content: &str)
        requires
            old(self).wf(),
            valid_range(encode_utf8(old(self).text@), offset as int, offset as int),
            encode_utf8(old(self).text@).len() + content.spec_bytes().len() <= usize::MAX,
        ensures
            final(self).wf(),
            encode_utf8(final(self).text@) == splice(encode_utf8(old(self).text@), offset as int, offset as int, content.spec_bytes()),
            old(self).strategy is NoChange ==> (final(self).strategy matches CommitStrategy::Insert { offset: o, content: c } && o == offset && c@ == content@),
            !(old(self).strategy is NoChange) ==> final(self).strategy is Diff,
            final(self).mutated,
    {
        self.splice_in(offset, offset, content);
        self.record(CommitStrategy::Insert { offset, content: content.to_owned() });
        self.mutated = true;
    }
}

/// Where an insert at a character boundary puts things: the character index
/// of the boundary, the new characters, and the boundary after the insert.
proof fn lemma_insert_chars(cs: Seq<char>, off: int, ins: Seq<char>, new_cs: Seq<char>) -> (k: int)
    requires
        0 <= off <= encode_utf8(cs).len(),
        is_char_boundary(encode_utf8(cs), off),
        encode_utf8(new_cs) == splice(encode_utf8(cs), off, off, encode_utf8(ins)),
    ensures
        0 <= k <= cs.len(),
        byte_at(cs, k) == off,
        new_cs == cs.take(k) + ins + cs.skip(k),
        off + encode_utf8(ins).len() <= encode_utf8(new_cs).len(),
        is_char_boundary(encode_utf8(new_cs), off + encode_utf8(ins).len()),
{
    let k = lemma_boundary_is_byte_at(cs, off);
    lemma_byte_at_full(cs);
    lemma_encode_subrange(cs, 0, k);
    lemma_encode_subrange(cs, k, cs.len() as int);
    let b = encode_utf8(cs);
    assert(cs.subrange(0, k) =~= cs.take(k));
    assert(cs.subrange(k, cs.len() as int) =~= cs.skip(k));
    assert(b.subrange(0, off) =~= b.take(off));
    assert(b.subrange(off, b.len() as int) =~= b.skip(off));
    let pre = cs.take(k) + ins;
    lemma_encode_concat(cs.take(k), ins);
    lemma_encode_concat(pre, cs.skip(k));
    lemma_encode_injective(new_cs, pre + cs.skip(k));
    assert(new_cs.take(pre.len() as int) =~= pre);
    lemma_byte_at_is_boundary(new_cs, pre.len() as int);
    lemma_byte_at_full(new_cs);
    lemma_byte_at_mono(new_cs, pre.len() as int, new_cs.len() as int);
    k
}

impl TextMirror {
    /// Apply an insert effect. For a brace candidate (see
    /// [`brace_candidate`]) the auto-brace decision at `offset`, given the
    /// syntax region there, picks one of three outcomes:
    /// - insert only: as a plain insert;
    /// - insert with close: the character and then its close key, committed
    ///   as a diff;
    /// - skip over: the text is unchanged and the caret moves over the
    ///   close key's characters; the byte offset to move it to is returned.
    pub fn apply_insert_effect(
        &mut self,
        offset: usize,
        content: &str,
        eligible: bool,
        snapshot: &AutoBraceSnapshot,
        syntax: &SyntaxRegion,
    ) -> (r: Option<usize>)
        requires
            old(self).wf(),
            valid_range(encode_utf8(old(self).text@), offset as int, offset as int),
            room_for_insert(encode_utf8(old(self).text@), content.spec_bytes().len() as int, snapshot.pairs_view()),
        ensures
            final(self).wf(),
            ({
                let cs = old(self).text@;
                let b = encode_utf8(cs);
                let cb = content.spec_bytes();
                let off = offset as int;
                let cand = brace_candidate(content@, eligible, snapshot.enabled);
                let choice = insert_choice(cs, off, content@[0], snapshot.pairs_view(), snapshot.delimiters_view(), *syntax);
                if !cand || choice is InsertOnly {
                    &&& encode_utf8(final(self).text@) == splice(b, off, off, cb)
                    &&& r is None
                    &&& final(self).mutated
                    &&& old(self).strategy is NoChange ==> (final(self).strategy matches CommitStrategy::Insert { offset: o, content: c } && o == offset && c@ == content@)
                    &&& !(old(self).strategy is NoChange) ==> final(self).strategy is Diff
                } else if choice is InsertWithClose {
                    &&& encode_utf8(final(self).text@) == splice(
                        splice(b, off, off, cb),
                        off + cb.len(),
                        off + cb.len(),
                        encode_utf8(choice->InsertWithClose_0),
                    )
                    &&& r is None
                    &&& final(self).mutated
                    &&& final(self).strategy is Diff
                } else {
                    &&& final(self).text@ == cs
                    &&& final(self).strategy == old(self).strategy
                    &&& final(self).mutated == old(self).mutated
                    &&& r == Some(advance_chars(cs, off, choice->SkipOver_0 as int) as usize)
                }
            }),
    {
        if !auto_brace_applies(content, eligible, snapshot) {
            self.insert_plain(offset, content);
            return None;
        }
        let ch = content.get_char(0);
        let action = {
            let doc = DocumentView::new(self.text.as_str(), &self.line_index);
            compute_auto_brace_insert(&doc, offset, ch, snapshot, syntax)
        };
        match action {
            AutoBraceAction::InsertOnly => {
                self.insert_plain(offset, content);
                None
            },
            AutoBraceAction::InsertWithClose { close } => {
                let ghost cs = self.text@;
                let ghost pv = snapshot.pairs_view();
                proof {
                    let i = crate::auto_brace::first_open_from(pv, seq![ch], 0)->0;
                    crate::auto_brace::lemma_first_open_from(pv, seq![ch], 0);
                    assert(close@ == pv[i].1);
                }
                self.splice_in(offset, offset, content);
                let close_off = offset + str_byte_len(content);
                proof {
                    lemma_insert_chars(cs, offset as int, content@, self.text@);
                }
                self.splice_in(close_off, close_off, close.as_str());
                self.strategy = CommitStrategy::Diff;
                self.mutated = true;
                None
            },
            AutoBraceAction::SkipOver { move_cols } => {
                let text: &str = self.text.as_str();
                let len = str_byte_len(text);
                proof {
                    lemma_byte_at_full(text@);
                    lemma_byte_at_is_boundary(text@, text@.len() as int);
                }
                let tail = substr_bytes(text, offset, len);
                let ghost cs = text@;
                let ghost k = lemma_boundary_is_byte_at(cs, offset as int);
                proof {
                    lemma_encode_subrange(cs, k, cs.len() as int);
                    lemma_encode_injective(tail@, cs.subrange(k, cs.len() as int));
                    if k < cs.len() {
                        crate::text::lemma_byte_at_step(cs, k);
                        crate::text::lemma_width_bounds(cs[k]);
                    }
                    crate::text::lemma_chars_within_unique(cs, offset as int, k);
                }
                let m: usize = if move_cols < 0 {
                    usize::MAX
                } else {
                    move_cols as usize
                };
                let adv = crate::codec::char_col_to_byte_offset(tail, m);
                proof {
                    assert(move_cols >= 0);
                    let j = min_int(m as int, tail@.len() as int);
                    crate::text::lemma_byte_at_subrange(cs, k, cs.len() as int, j);
                    lemma_byte_at_mono(cs, k + j, cs.len() as int);
                }
                Some(offset + adv)
            },
        }
    }
}

/// What the first matching pair index of a delete says about it.
proof fn lemma_first_deleted_pair(pv: Seq<(Seq<char>, Seq<char>)>, deleted: Seq<u8>, rest: Seq<u8>, i: int)
    requires
        0 <= i,
    ensures
        first_deleted_pair(pv, deleted, rest, i) matches Some(k) ==> {
            &&& i <= k < pv.len()
            &&& encode_utf8(pv[k].0) == deleted
            &&& encode_utf8(pv[k].1).len() <= rest.len()
            &&& rest.take(encode_utf8(pv[k].1).len() as int) == encode_utf8(pv[k].1)
        },
    decreases pv.len() - i,
{
    if i < pv.len() && !(encode_utf8(pv[i].0) == deleted && encode_utf8(pv[i].1).len() <= rest.len()
        && rest.take(encode_utf8(pv[i].1).len() as int) == encode_utf8(pv[i].1)) {
        lemma_first_deleted_pair(pv, deleted, rest, i + 1);
    }
}

/// The end of an auto-brace delete extended by the close key is still a
/// character boundary within the text.
proof fn lemma_delete_extra_range(cs: Seq<char>, start: int, end: int, pv: Seq<(Seq<char>, Seq<char>)>)
    requires
        valid_range(encode_utf8(cs), start, end),
    ensures
        delete_extra_spec(encode_utf8(cs), start, end, pv) >= 0,
        valid_range(encode_utf8(cs), start, end + delete_extra_spec(encode_utf8(cs), start, end, pv)),
{
    let b = encode_utf8(cs);
    let extra = delete_extra_spec(b, start, end, pv);
    if extra > 0 {
        let rest = b.skip(end);
        lemma_first_deleted_pair(pv, b.subrange(start, end), rest, 0);
        let k = first_deleted_pair(pv, b.subrange(start, end), rest, 0)->0;
        let close = pv[k].1;
        let y = encode_utf8(close);
        let n = y.len() as int;
        let ke = lemma_boundary_is_byte_at(cs, end);
        lemma_byte_at_full(cs);
        lemma_encode_subrange(cs, ke, cs.len() as int);
        assert(b.subrange(end, b.len() as int) =~= rest);
        let tail = cs.subrange(ke, cs.len() as int);
        vstd::utf8::encode_utf8_valid_utf8(tail);
        vstd::utf8::encode_utf8_valid_utf8(close);
        lemma_byte_at_is_boundary(close, close.len() as int);
        lemma_byte_at_full(close);
        assert(close.take(close.len() as int) =~= close);
        assert(y.take(n) =~= y);
        crate::text::lemma_shared_prefix_boundary(rest, y, n);
        let kk = lemma_boundary_is_byte_at(tail, n);
        crate::text::lemma_byte_at_subrange(cs, ke, cs.len() as int, kk);
        lemma_byte_at_is_boundary(cs, ke + kk);
    }
}

impl TextMirror {
    /// Apply a delete effect of bytes `[start, end)`. With auto-brace on
    /// and the dispatch eligible, deleting an open key right before its
    /// close key deletes the close key too, committed as a diff.
    pub fn apply_delete_effect(&mut self, start: usize, end: usize, eligible: bool, snapshot: &AutoBraceSnapshot)
        requires
            old(self).wf(),
            valid_range(encode_utf8(old(self).text@), start as int, end as int),
        ensures
            final(self).wf(),
            final(self).mutated,
            ({
                let b = encode_utf8(old(self).text@);
                let extra = if eligible && snapshot.enabled {
                    delete_extra_spec(b, start as int, end as int, snapshot.pairs_view())
                } else {
                    0
                };
                &&& encode_utf8(final(self).text@) == splice(b, start as int, end + extra, Seq::<u8>::empty())
                &&& extra > 0 ==> final(self).strategy is Diff
                &&& extra == 0 && old(self).strategy is NoChange ==> (final(self).strategy matches CommitStrategy::Delete { start: s, end: e } && s == start && e == end)
                &&& extra == 0 && !(old(self).strategy is NoChange) ==> final(self).strategy is Diff
            }),
    {
        proof {
            reveal_strlit("");
            lemma_delete_extra_range(self.text@, start as int, end as int, snapshot.pairs_view());
        }
        let _total = str_byte_len(self.text.as_str());
        let extra = if eligible && snapshot.enabled {
            let doc = DocumentView::new(self.text.as_str(), &self.line_index);
            compute_auto_brace_delete_extra(&doc, start, end, snapshot)
        } else {
            0
        };
        if extra > 0 {
            self.splice_in(start, end + extra, "");
            self.strategy = CommitStrategy::Diff;
        } else {
            self.splice_in(start, end, "");
            self.record(CommitStrategy::Delete { start, end });
        }
        self.mutated = true;
    }

    /// Apply a replace effect: bytes `[start, end)` become `content`.
    pub fn apply_replace_effect(&mut self, start: usize, end: usize, content: &str)
        requires
            old(self).wf(),
            valid_range(encode_utf8(old(self).text@), start as int, end as int),
            encode_utf8(old(self).text@).len() + content.spec_bytes().len() <= usize::MAX,
        ensures
            final(self).wf(),
            final(self).mutated,
            encode_utf8(final(self).text@) == splice(encode_utf8(old(self).text@), start as int, end as int, content.spec_bytes()),
            old(self).strategy is NoChange ==> (final(self).strategy matches CommitStrategy::Replace { start: s, end: e, content: c } && s == start && e == end && c@ == content@),
            !(old(self).strategy is NoChange) ==> final(self).strategy is Diff,
    {
        self.splice_in(start, end, content);
        self.record(CommitStrategy::Replace { start, end, content: content.to_owned() });
        self.mutated = true;
    }
}

// ---------------------------------------------------------------------------
// Commit
// ---------------------------------------------------------------------------

/// An editor text call, in the editor's line/column positions.
pub enum EditorTextCommand {
    Insert { text: String, line: i32, col: i32 },
    Remove { from_line: i32, from_col: i32, to_line: i32, to_col: i32 },
}

/// An editor text call seen as data: the text and position of an insert,
/// or the two ends of a removal.
pub enum TextCommandView {
    Insert(Seq<char>, (i32, i32)),
    Remove((i32, i32), (i32, i32)),
}

pub open spec fn command_view(c: EditorTextCommand) -> TextCommandView {
    match c {
        EditorTextCommand::Insert { text, line, col } => TextCommandView::Insert(text@, (line, col)),
        EditorTextCommand::Remove { from_line, from_col, to_line, to_col } => TextCommandView::Remove(
            (from_line, from_col),
            (to_line, to_col),
        ),
    }
}

/// The editor calls that commit a single mutation, at the positions of the
/// text `cs` before the key: an insert at its offset; a removal of its range; a
/// replacement as that removal followed by the insert at its start. `None`
/// for no mutation and for a diff (see [`is_diff_commands`]).
pub open spec fn commit_spec(cs: Seq<char>, strategy: CommitStrategy) -> Option<Seq<TextCommandView>> {
    match strategy {
        CommitStrategy::NoChange => None,
        CommitStrategy::Diff => None,
        CommitStrategy::Insert { offset, content } => Some(
            seq![TextCommandView::Insert(content@, byte_to_line_col_spec(cs, offset as int))],
        ),
        CommitStrategy::Delete { start, end } => Some(
            seq![TextCommandView::Remove(byte_to_line_col_spec(cs, start as int), byte_to_line_col_spec(cs, end as int))],
        ),
        CommitStrategy::Replace { start, end, content } => Some(
            seq![
                TextCommandView::Remove(byte_to_line_col_spec(cs, start as int), byte_to_line_col_spec(cs, end as int)),
                TextCommandView::Insert(content@, byte_to_line_col_spec(cs, start as int)),
            ],
        ),
    }
}

/// The views of editor calls.
pub open spec fn command_views(v: Seq<EditorTextCommand>) -> Seq<TextCommandView> {
    v.map_values(|c: EditorTextCommand| command_view(c))
}

/// The regions that turn the bytes `b` of the text before into the bytes
/// `a` of the mirror: the multi-site diff, bounded by their common prefix.
pub open spec fn diff_regions(b: Seq<u8>, a: Seq<u8>) -> Seq<(int, int, Seq<u8>)> {
    regions_of(b, a, common_prefix_len(b, a) as int)
}

/// Commands `2j` and `2j + 1` of a diff commit replace the `j`-th region
/// from the end: a removal of its old bytes, then an insert of its new
/// text at its start, at the positions of the text `cs` before the key.
pub open spec fn diff_pair_ok(cs: Seq<char>, rs: Seq<(int, int, Seq<u8>)>, v: Seq<TextCommandView>, j: int) -> bool {
    let reg = rs[rs.len() - 1 - j];
    &&& v[2 * j] == TextCommandView::Remove(
        byte_to_line_col_spec(cs, reg.0),
        byte_to_line_col_spec(cs, reg.0 + reg.1),
    )
    &&& v[2 * j + 1] is Insert
    &&& encode_utf8(v[2 * j + 1]->Insert_0) == reg.2
    &&& v[2 * j + 1]->Insert_1 == byte_to_line_col_spec(cs, reg.0)
}

/// `v` commits the regions `rs` from the last to the first, each as a
/// removal followed by an insert (see [`diff_pair_ok`]).
pub open spec fn is_diff_commands(cs: Seq<char>, rs: Seq<(int, int, Seq<u8>)>, v: Seq<TextCommandView>) -> bool {
    &&& v.len() == 2 * rs.len()
    &&& forall|j: int| 0 <= j < rs.len() ==> #[trigger] diff_pair_ok(cs, rs, v, j)
}

/// The bytes `b` with the regions `rs` spliced in from the last to the
/// first, each at its own offset in `b`.
pub open spec fn splice_back(b: Seq<u8>, rs: Seq<(int, int, Seq<u8>)>) -> Seq<u8>
    decreases rs.len(),
{
    if rs.len() == 0 {
        b
    } else {
        let l = rs.last();
        splice_back(b.take(l.0) + l.2 + b.skip(l.0 + l.1), rs.drop_last())
    }
}

/// Regions within `b`, each ending at or before the next one starts.
pub open spec fn ordered_within(b: Seq<u8>, rs: Seq<(int, int, Seq<u8>)>) -> bool {
    &&& forall|k: int| 0 <= k < rs.len() ==> 0 <= (#[trigger] rs[k]).0 && 0 <= rs[k].1 && rs[k].0 + rs[k].1 <= b.len()
    &&& forall|k: int| 0 <= k < rs.len() - 1 ==> (#[trigger] rs[k]).0 + rs[k].1 <= rs[k + 1].0
}

/// Dropping the first of ordered regions leaves them ordered.
proof fn lemma_ordered_drop_first(b: Seq<u8>, x: Seq<(int, int, Seq<u8>)>)
    requires
        ordered_within(b, x),
        x.len() > 0,
    ensures
        ordered_within(b, x.drop_first()),
{
    let y = x.drop_first();
    assert forall|k: int| 0 <= k < y.len() implies 0 <= (#[trigger] y[k]).0 && 0 <= y[k].1 && y[k].0 + y[k].1 <= b.len() by {
        assert(y[k] == x[k + 1]);
    }
    assert forall|k: int| 0 <= k < y.len() - 1 implies (#[trigger] y[k]).0 + y[k].1 <= y[k + 1].0 by {
        assert(y[k] == x[k + 1]);
        assert(y[k + 1] == x[k + 2]);
    }
}

/// Splicing the last region first leaves the earlier regions' bytes where
/// they were.
proof fn lemma_apply_last_first(b: Seq<u8>, rs: Seq<(int, int, Seq<u8>)>, l: (int, int, Seq<u8>), from: int)
    requires
        ordered_within(b, rs.push(l)),
        0 <= from,
        rs.len() > 0 ==> from <= rs[0].0,
        rs.len() == 0 ==> from <= l.0,
    ensures
        apply_regions(b, rs.push(l), from) == apply_regions(b.take(l.0) + l.2 + b.skip(l.0 + l.1), rs, from),
    decreases rs.len(),
{
    let b2 = b.take(l.0) + l.2 + b.skip(l.0 + l.1);
    let x = rs.push(l);
    assert(x[x.len() - 1] == l);
    assert(0 <= l.0 && 0 <= l.1 && l.0 + l.1 <= b.len());
    if rs.len() == 0 {
        assert(x.drop_first() =~= Seq::<(int, int, Seq<u8>)>::empty());
        assert(apply_regions(b, x.drop_first(), l.0 + l.1) == b.skip(l.0 + l.1));
        assert(apply_regions(b, x, from) == b.subrange(from, l.0) + l.2 + b.skip(l.0 + l.1));
        assert(b.subrange(from, l.0) + l.2 + b.skip(l.0 + l.1) =~= b2.skip(from));
        assert(apply_regions(b2, rs, from) == b2.skip(from));
    } else {
        let r0 = rs[0];
        let t = rs.drop_first();
        assert(x[0] == r0);
        assert(x.drop_first() =~= t.push(l));
        lemma_ordered_drop_first(b, x);
        lemma_ordered_before_last(b, x, 0);
        assert(r0.0 + r0.1 <= l.0);
        if t.len() > 0 {
            assert(x[0].0 + x[0].1 <= x[1].0);
            assert(x[1] == t[0]);
        }
        lemma_apply_last_first(b, t, l, r0.0 + r0.1);
        assert(b2.subrange(from, r0.0) =~= b.subrange(from, r0.0));
        assert(apply_regions(b, x, from) == b.subrange(from, r0.0) + r0.2 + apply_regions(b, x.drop_first(), r0.0 + r0.1));
        assert(apply_regions(b2, rs, from) == b2.subrange(from, r0.0) + r0.2 + apply_regions(b2, t, r0.0 + r0.1));
    }
}

/// In ordered regions, every region ends at or before the last one starts.
proof fn lemma_ordered_before_last(b: Seq<u8>, x: Seq<(int, int, Seq<u8>)>, k: int)
    requires
        ordered_within(b, x),
        0 <= k < x.len(),
    ensures
        x[k].0 <= x[x.len() - 1].0,
        k < x.len() - 1 ==> x[k].0 + x[k].1 <= x[x.len() - 1].0,
    decreases x.len() - k,
{
    if k < x.len() - 1 {
        assert(x[k].0 + x[k].1 <= x[k + 1].0);
        lemma_ordered_before_last(b, x, k + 1);
    }
}

/// Splicing ordered regions from the last to the first gives what applying
/// them in order gives.
proof fn lemma_splice_back(b: Seq<u8>, rs: Seq<(int, int, Seq<u8>)>)
    requires
        ordered_within(b, rs),
    ensures
        splice_back(b, rs) == apply_regions(b, rs, 0),
    decreases rs.len(),
{
    if rs.len() == 0 {
        assert(b.skip(0) =~= b);
    } else {
        let l = rs.last();
        let d = rs.drop_last();
        let b2 = b.take(l.0) + l.2 + b.skip(l.0 + l.1);
        assert(d.push(l) =~= rs);
        assert(ordered_within(b2, d)) by {
            assert forall|k: int| 0 <= k < d.len() implies 0 <= (#[trigger] d[k]).0 && 0 <= d[k].1 && d[k].0 + d[k].1
                <= b2.len() by {
                assert(d[k] == rs[k]);
                lemma_ordered_before_last(b, rs, k);
            }
            assert forall|k: int| 0 <= k < d.len() - 1 implies (#[trigger] d[k]).0 + d[k].1 <= d[k + 1].0 by {
                assert(d[k] == rs[k]);
                assert(d[k + 1] == rs[k + 1]);
            }
        }
        lemma_splice_back(b2, d);
        if d.len() > 0 {
            assert(d[0] == rs[0]);
        }
        lemma_apply_last_first(b, d, l, 0);
    }
}

/// A diff commit rebuilds the mirror: splicing the diff regions into the
/// text before, from the last to the first (so that each region's offsets
/// in the text before still hold when it is spliced), gives the mirror;
/// the regions lie within the text before, in order.
pub proof fn lemma_diff_commit_rebuilds(b: Seq<u8>, a: Seq<u8>)
    requires
        valid_utf8(b),
        valid_utf8(a),
    ensures
        ordered_within(b, diff_regions(b, a)),
        splice_back(b, diff_regions(b, a)) == a,
{
    let c = common_prefix_len(b, a) as int;
    let rs = diff_regions(b, a);
    lemma_regions_of(b, a, c, rs);
    lemma_regions_rebuild(b, a, c, rs);
    lemma_splice_back(b, rs);
}

/// The editor calls committing `strategy`: for a single mutation those of
/// [`commit_spec`]; for a diff, the diff regions of the mirror `after`
/// against the text before, from the last to the first (see
/// [`is_diff_commands`] and [`lemma_diff_commit_rebuilds`]).
pub fn commit_commands(before: &DocumentView, after: &str, strategy: &CommitStrategy) -> (r: Option<Vec<EditorTextCommand>>)
    requires
        before.wf(),
    ensures
        strategy is Diff ==> (r matches Some(v) && is_diff_commands(
            before.text@,
            diff_regions(before.text.spec_bytes(), after.spec_bytes()),
            v@.map_values(|c: EditorTextCommand| command_view(c)),
        )),
        !(strategy is Diff) ==> match r {
            Some(v) => commit_spec(before.text@, *strategy) == Some(v@.map_values(|c: EditorTextCommand| command_view(c))),
            None => commit_spec(before.text@, *strategy) is None,
        },
{
    match strategy {
        CommitStrategy::Diff => Some(diff_commands(before, after)),
        CommitStrategy::NoChange => None,
        CommitStrategy::Insert { offset, content } => {
            let p = before.line_index.byte_to_line_col(before.text, *offset);
            let v = vec![EditorTextCommand::Insert { text: content.clone(), line: p.line, col: p.col }];
            proof {
                assert(v@.map_values(|c: EditorTextCommand| command_view(c)) =~= seq![
                    TextCommandView::Insert(content@, byte_to_line_col_spec(before.text@, *offset as int)),
                ]);
            }
            Some(v)
        },
        CommitStrategy::Delete { start, end } => {
            let a = before.line_index.byte_to_line_col(before.text, *start);
            let b = before.line_index.byte_to_line_col(before.text, *end);
            let v = vec![EditorTextCommand::Remove { from_line: a.line, from_col: a.col, to_line: b.line, to_col: b.col }];
            proof {
                assert(v@.map_values(|c: EditorTextCommand| command_view(c)) =~= seq![
                    TextCommandView::Remove(
                        byte_to_line_col_spec(before.text@, *start as int),
                        byte_to_line_col_spec(before.text@, *end as int),
                    ),
                ]);
            }
            Some(v)
        },
        CommitStrategy::Replace { start, end, content } => {
            let a = before.line_index.byte_to_line_col(before.text, *start);
            let b = before.line_index.byte_to_line_col(before.text, *end);
            let v = vec![
                EditorTextCommand::Remove { from_line: a.line, from_col: a.col, to_line: b.line, to_col: b.col },
                EditorTextCommand::Insert { text: content.clone(), line: a.line, col: a.col },
            ];
            proof {
                assert(v@.map_values(|c: EditorTextCommand| command_view(c)) =~= seq![
                    TextCommandView::Remove(
                        byte_to_line_col_spec(before.text@, *start as int),
                        byte_to_line_col_spec(before.text@, *end as int),
                    ),
                    TextCommandView::Insert(content@, byte_to_line_col_spec(before.text@, *start as int)),
                ]);
            }
            Some(v)
        },
    }
}


/// The editor calls of a diff commit (see [`commit_commands`]).
fn diff_commands(before: &DocumentView, after: &str) -> (r: Vec<EditorTextCommand>)
    requires
        before.wf(),
    ensures
        is_diff_commands(
            before.text@,
            diff_regions(before.text.spec_bytes(), after.spec_bytes()),
            command_views(r@),
        ),
{
    let cp = common_prefix(before.text.as_bytes(), after.as_bytes());
    let regs = decompose_multi_site_diff(before.text, after, cp);
    let ghost cs = before.text@;
    let ghost rs = region_views(regs@);
    proof {
        lemma_regions_of(before.text.spec_bytes(), after.spec_bytes(), cp as int, rs);
    }
    let n = regs.len();
    let tb = before.text.as_bytes();
    let tlen = tb.len();
    let mut v: Vec<EditorTextCommand> = Vec::new();
    let mut k: usize = n;
    while k > 0
        invariant
            before.wf(),
            tlen == before.text.spec_bytes().len(),
            cs == before.text@,
            n == regs@.len(),
            rs == region_views(regs@),
            rs.len() == n,
            k <= n,
            forall|q: int| 0 <= q < n ==> (#[trigger] regs@[q]).offset + regs@[q].old_len <= before.text.spec_bytes().len(),
            v@.len() == 2 * (n - k),
            forall|j: int| 0 <= j < n - k ==> #[trigger] diff_pair_ok(cs, rs, command_views(v@), j),
        decreases k,
    {
        let reg = &regs[k - 1];
        proof {
            assert(rs[k - 1] == region_view(regs@[k - 1]));
            assert(regs@[k - 1].offset + regs@[k - 1].old_len <= before.text.spec_bytes().len());
        }
        let s = before.line_index.byte_to_line_col(before.text, reg.offset);
        let e = before.line_index.byte_to_line_col(before.text, reg.offset + reg.old_len);
        let ghost old_views = command_views(v@);
        v.push(EditorTextCommand::Remove { from_line: s.line, from_col: s.col, to_line: e.line, to_col: e.col });
        v.push(EditorTextCommand::Insert { text: reg.inserted.to_owned(), line: s.line, col: s.col });
        proof {
            let nv = command_views(v@);
            let j0 = (n - k) as int;
            assert forall|j: int| 0 <= j < j0 + 1 implies #[trigger] diff_pair_ok(cs, rs, nv, j) by {
                if j < j0 {
                    assert(nv[2 * j] == old_views[2 * j]);
                    assert(nv[2 * j + 1] == old_views[2 * j + 1]);
                    assert(diff_pair_ok(cs, rs, old_views, j));
                } else {
                    assert(rs.len() - 1 - j == k - 1);
                    assert(nv[2 * j] == command_view(v@[2 * j]));
                    assert(nv[2 * j + 1] == command_view(v@[2 * j + 1]));
                }
            }
        }
        k = k - 1;
    }
    v
}

} // verus!
