//! Auto-brace completion for insert mode: what typing or deleting a
//! character does with the editor's brace pairs, decided from the text and
//! a snapshot of the editor's auto-brace settings.

use crate::codec::{
    byte_to_line_col_spec, clamp_nonneg, i32_to_usize, line_chars, usize_to_i32, sat_i32,
    DocumentView,
};
use crate::lines::starts_of;
use crate::strs::str_equal;
use crate::text::push_char;
use crate::text::chars_of;
use crate::text::substr_bytes;
use std::rc::Rc;
use vstd::prelude::*;
use vstd::string::StrSliceExecFns;
use vstd::string::StringSliceAdditionalSpecFns;
use vstd::utf8::is_char_boundary;

verus! {

broadcast use vstd::seq::group_seq_axioms;

/// The editor's auto-brace settings, captured once per keystroke.
#[derive(Debug, Clone)]
pub struct AutoBraceSnapshot {
    pub enabled: bool,
    /// `(open, close)` pairs, longest open key first.
    pub pairs: Rc<Vec<(String, String)>>,
    /// Start keys of the string delimiters.
    pub string_delimiters: Vec<String>,
}

/// Character views of brace pairs.
pub open spec fn pair_views(p: Seq<(String, String)>) -> Seq<(Seq<char>, Seq<char>)> {
    p.map_values(|x: (String, String)| (x.0@, x.1@))
}

/// Character views of strings.
pub open spec fn string_views(v: Seq<String>) -> Seq<Seq<char>> {
    v.map_values(|x: String| x@)
}

/// Some delimiter equals `key`.
pub open spec fn has_delimiter(delims: Seq<Seq<char>>, key: Seq<char>) -> bool {
    exists|i: int| 0 <= i < delims.len() && #[trigger] delims[i] == key
}

/// Both keys of a pair are single characters.
pub open spec fn single_char_pair(p: (Seq<char>, Seq<char>)) -> bool {
    p.0.len() == 1 && p.1.len() == 1
}

/// The pairs of `s`, in order, without those of two single characters.
pub open spec fn multi_char_pairs(s: Seq<(Seq<char>, Seq<char>)>) -> Seq<(Seq<char>, Seq<char>)>
    decreases s.len(),
{
    if s.len() == 0 {
        s
    } else if single_char_pair(s.last()) {
        multi_char_pairs(s.drop_last())
    } else {
        multi_char_pairs(s.drop_last()).push(s.last())
    }
}

impl AutoBraceSnapshot {
    /// Pairs as character sequences.
    pub open spec fn pairs_view(&self) -> Seq<(Seq<char>, Seq<char>)> {
        pair_views((*self.pairs)@)
    }

    /// Delimiter start keys as character sequences.
    pub open spec fn delimiters_view(&self) -> Seq<Seq<char>> {
        string_views(self.string_delimiters@)
    }

    /// A snapshot with auto-brace off and no pairs or delimiters.
    pub fn disabled() -> (r: Self)
        ensures
            !r.enabled,
            r.pairs_view().len() == 0,
            r.delimiters_view().len() == 0,
    {
        AutoBraceSnapshot { enabled: false, pairs: Rc::new(Vec::new()), string_delimiters: Vec::new() }
    }

    /// Drop the pairs whose open and close keys are both single characters
    /// (the engine's own auto-pairs handle those); the others keep their
    /// order.
    pub fn filter_engine_owned_pairs(&mut self)
        ensures
            final(self).pairs_view() == multi_char_pairs(old(self).pairs_view()),
            final(self).enabled == old(self).enabled,
            final(self).string_delimiters == old(self).string_delimiters,
    {
        let ghost src = self.pairs_view();
        let mut kept: Vec<(String, String)> = Vec::new();
        let n = self.pairs.len();
        let mut i: usize = 0;
        proof {
            assert(src.take(0) =~= Seq::<(Seq<char>, Seq<char>)>::empty());
            assert(pair_views(kept@) =~= multi_char_pairs(src.take(0)));
        }
        while i < n
            invariant
                n == (*self.pairs)@.len(),
                src == pair_views((*self.pairs)@),
                i <= n,
                pair_views(kept@) == multi_char_pairs(src.take(i as int)),
            decreases n - i,
        {
            let open = &self.pairs[i].0;
            let close = &self.pairs[i].1;
            let ghost before = kept@;
            proof {
                assert(src.take(i + 1).drop_last() =~= src.take(i as int));
                assert(src[i as int] == (open@, close@));
            }
            if open.as_str().unicode_len() != 1 || close.as_str().unicode_len() != 1 {
                kept.push((open.clone(), close.clone()));
                proof {
                    assert(pair_views(kept@) =~= pair_views(before).push((open@, close@)));
                }
            }
            i = i + 1;
        }
        proof {
            assert(src.take(n as int) =~= src);
        }
        self.pairs = Rc::new(kept);
    }

    /// Whether `key` is a string delimiter start key.
    pub fn has_string_delimiter(&self, key: &str) -> (r: bool)
        ensures
            r == has_delimiter(self.delimiters_view(), key@),
    {
        let mut i: usize = 0;
        while i < self.string_delimiters.len()
            invariant
                i <= self.string_delimiters@.len(),
                forall|j: int| 0 <= j < i ==> #[trigger] self.delimiters_view()[j] != key@,
            decreases self.string_delimiters@.len() - i,
        {
            if str_equal(self.string_delimiters[i].as_str(), key) {
                proof {
                    assert(self.delimiters_view()[i as int] == key@);
                }
                return true;
            }
            i = i + 1;
        }
        false
    }
}

/// Syntax region at a cursor position.
#[derive(Debug, Clone, Copy, PartialEq, Eq, Structural)]
pub enum SyntaxRegion {
    /// Normal code.
    Code,
    /// Inside a string literal.
    String,
    /// Inside a comment.
    Comment,
}

impl SyntaxRegion {
    /// Region from the editor's two answers; a comment wins over a string.
    pub fn from_flags(in_comment: bool, in_string: bool) -> (r: Self)
        ensures
            in_comment ==> r == SyntaxRegion::Comment,
            !in_comment && in_string ==> r == SyntaxRegion::String,
            !in_comment && !in_string ==> r == SyntaxRegion::Code,
    {
        if in_comment {
            SyntaxRegion::Comment
        } else if in_string {
            SyntaxRegion::String
        } else {
            SyntaxRegion::Code
        }
    }

    /// Plain code.
    pub fn code() -> (r: Self)
        ensures
            r == SyntaxRegion::Code,
    {
        SyntaxRegion::Code
    }
}

/// What typing a character does.
#[derive(Debug, Clone, PartialEq, Eq)]
pub enum AutoBraceAction {
    /// Insert the character alone.
    InsertOnly,
    /// Insert the character and a closing key after it.
    InsertWithClose { close: String },
    /// Move over the closing key already at the cursor.
    SkipOver { move_cols: i32 },
}

/// Decision of an auto-brace insert, over character sequences.
pub enum BraceChoice {
    InsertOnly,
    InsertWithClose(Seq<char>),
    SkipOver(i32),
}

pub open spec fn choice_of(a: AutoBraceAction) -> BraceChoice {
    match a {
        AutoBraceAction::InsertOnly => BraceChoice::InsertOnly,
        AutoBraceAction::InsertWithClose { close } => BraceChoice::InsertWithClose(close@),
        AutoBraceAction::SkipOver { move_cols } => BraceChoice::SkipOver(move_cols),
    }
}

/// ASCII punctuation: ``!"#$%&'()*+,-./:;<=>?@[\]^_`{|}~``.
pub open spec fn is_ascii_punct(c: char) -> bool {
    ('!' <= c <= '/') || (':' <= c <= '@') || ('[' <= c <= '`') || ('{' <= c <= '~')
}

/// The auto-brace "symbol" class: ASCII punctuation but `_`, tab and space.
pub open spec fn symbol(c: char) -> bool {
    (is_ascii_punct(c) && c != '_') || c == '\t' || c == ' '
}

/// Whether `ch` is a symbol for auto-brace purposes.
pub fn is_symbol(ch: char) -> (r: bool)
    ensures
        r == symbol(ch),
{
    let punct = ('!' <= ch && ch <= '/') || (':' <= ch && ch <= '@') || ('[' <= ch && ch <= '`')
        || ('{' <= ch && ch <= '~');
    (punct && ch != '_') || ch == '\t' || ch == ' '
}

/// The character at index `n` of `s`, if any.
pub fn nth_char(s: &str, n: usize) -> (r: Option<char>)
    ensures
        n < s@.len() ==> r == Some(s@[n as int]),
        n >= s@.len() ==> r.is_none(),
{
    let v = chars_of(s);
    if n < v.len() {
        Some(v[n])
    } else {
        None
    }
}

/// `needle` is empty or occurs in `h` at character index `col`.
pub open spec fn matches_at(h: Seq<char>, col: int, needle: Seq<char>) -> bool {
    needle.len() == 0 || (col + needle.len() <= h.len() && h.subrange(col, col + needle.len())
        == needle)
}

/// Whether `needle` matches `haystack` from character index `col` on.
pub fn chars_match_at(haystack: &str, col: usize, needle: &str) -> (r: bool)
    ensures
        r == matches_at(haystack@, col as int, needle@),
{
    let h = chars_of(haystack);
    let w = chars_of(needle);
    if w.len() == 0 {
        return true;
    }
    if col > h.len() || w.len() > h.len() - col {
        return false;
    }
    let mut j: usize = 0;
    while j < w.len()
        invariant
            h@ == haystack@,
            w@ == needle@,
            col + w@.len() <= h@.len(),
            h@.len() <= usize::MAX,
            j <= w@.len(),
            forall|q: int| 0 <= q < j ==> h@[col + q] == #[trigger] w@[q],
        decreases w@.len() - j,
    {
        if h[col + j] != w[j] {
            proof {
                assert(h@.subrange(col as int, col + w@.len())[j as int] != w@[j as int]);
            }
            return false;
        }
        j = j + 1;
    }
    proof {
        assert(h@.subrange(col as int, col + w@.len()) =~= w@);
    }
    true
}

/// The close key of pair `i` fits in `line` at `col` and starts there.
pub open spec fn close_at(pv: Seq<(Seq<char>, Seq<char>)>, line: Seq<char>, col: int, i: int) -> bool {
    col + pv[i].1.len() <= line.len() && matches_at(line, col, pv[i].1)
}

/// Index of the first pair, from `i` on, whose close key starts at `col`.
pub open spec fn first_close_from(
    pv: Seq<(Seq<char>, Seq<char>)>,
    line: Seq<char>,
    col: int,
    i: int,
) -> Option<int>
    decreases pv.len() - i,
{
    if i >= pv.len() || i < 0 {
        None
    } else if close_at(pv, line, col, i) {
        Some(i)
    } else {
        first_close_from(pv, line, col, i + 1)
    }
}

pub proof fn lemma_first_close_from(
    pv: Seq<(Seq<char>, Seq<char>)>,
    line: Seq<char>,
    col: int,
    i: int,
)
    requires
        0 <= i,
    ensures
        first_close_from(pv, line, col, i) matches Some(k) ==> i <= k < pv.len() && close_at(
            pv,
            line,
            col,
            k,
        ),
    decreases pv.len() - i,
{
    if i < pv.len() && !close_at(pv, line, col, i) {
        lemma_first_close_from(pv, line, col, i + 1);
    }
}

pub open spec fn opt_int(o: Option<usize>) -> Option<int> {
    match o {
        Some(i) => Some(i as int),
        None => None,
    }
}

/// Index of the first pair whose close key starts at character `col` of
/// `line_text`.
pub fn find_close_pair_at_pos_str(pairs: &[(String, String)], line_text: &str, col: usize) -> (r:
    Option<usize>)
    ensures
        opt_int(r) == first_close_from(pair_views(pairs@), line_text@, col as int, 0),
{
    let line_len = line_text.unicode_len();
    let ghost pv = pair_views(pairs@);
    let mut i: usize = 0;
    while i < pairs.len()
        invariant
            pv == pair_views(pairs@),
            line_len == line_text@.len(),
            i <= pairs@.len(),
            first_close_from(pv, line_text@, col as int, 0) == first_close_from(
                pv,
                line_text@,
                col as int,
                i as int,
            ),
        decreases pairs@.len() - i,
    {
        let close = pairs[i].1.as_str();
        let close_len = close.unicode_len();
        proof {
            assert(pv[i as int] == (pairs@[i as int].0@, pairs@[i as int].1@));
        }
        if close_len <= line_len && col <= line_len - close_len && chars_match_at(
            line_text,
            col,
            close,
        ) {
            return Some(i);
        }
        i = i + 1;
    }
    None
}

/// The character at `i` of `s`, or a space when there is none.
pub open spec fn char_or_space(s: Seq<char>, i: int) -> char {
    if 0 <= i < s.len() {
        s[i]
    } else {
        ' '
    }
}

/// Index of the first pair whose open key is `key`.
pub open spec fn first_open_from(pv: Seq<(Seq<char>, Seq<char>)>, key: Seq<char>, i: int) -> Option<
    int,
>
    decreases pv.len() - i,
{
    if i >= pv.len() || i < 0 {
        None
    } else if pv[i].0 == key {
        Some(i)
    } else {
        first_open_from(pv, key, i + 1)
    }
}

/// The auto-brace decision for typing `ch` at byte `offset` of `cs`:
/// no auto-close for a string delimiter after a word character, nor before
/// a word character; skip over a closing key at the cursor that starts with
/// `ch`; no auto-close in a comment or for a delimiter in a string;
/// otherwise insert the close key of the first pair whose open key is `ch`.
pub open spec fn insert_choice(
    cs: Seq<char>,
    offset: int,
    ch: char,
    pv: Seq<(Seq<char>, Seq<char>)>,
    delims: Seq<Seq<char>>,
    syntax: SyntaxRegion,
) -> BraceChoice {
    let lc = byte_to_line_col_spec(cs, offset);
    let l = clamp_nonneg(lc.0);
    let c = clamp_nonneg(lc.1);
    let lt = if l < starts_of(cs, '\n').len() {
        line_chars(cs, l)
    } else {
        Seq::<char>::empty()
    };
    let post = if c < lt.len() {
        first_close_from(pv, lt, c, 0)
    } else {
        None
    };
    let key = seq![ch];
    if has_delimiter(delims, key) && c > 0 && !symbol(char_or_space(lt, c - 1)) && post.is_none() {
        BraceChoice::InsertOnly
    } else if c < lt.len() && !symbol(lt[c]) {
        BraceChoice::InsertOnly
    } else if post is Some && pv[post->0].1.len() > 0 && pv[post->0].1[0] == ch {
        BraceChoice::SkipOver(sat_i32(pv[post->0].1.len() as int))
    } else if syntax == SyntaxRegion::Comment || (syntax == SyntaxRegion::String && has_delimiter(
        delims,
        key,
    )) {
        BraceChoice::InsertOnly
    } else {
        match first_open_from(pv, key, 0) {
            Some(i) => BraceChoice::InsertWithClose(pv[i].1),
            None => BraceChoice::InsertOnly,
        }
    }
}

/// Decide what typing `ch` at byte `offset` does.
pub fn compute_auto_brace_insert(
    doc: &DocumentView,
    offset: usize,
    ch: char,
    auto_brace: &AutoBraceSnapshot,
    syntax: &SyntaxRegion,
) -> (r: AutoBraceAction)
    requires
        doc.wf(),
    ensures
        choice_of(r) == insert_choice(
            doc.text@,
            offset as int,
            ch,
            auto_brace.pairs_view(),
            auto_brace.delimiters_view(),
            *syntax,
        ),
{
    proof {
        crate::codec::lemma_char_lines(doc.text@);
    }
    let lc = doc.line_index.byte_to_line_col(doc.text, offset);
    let line = lc.line;
    let pairs: &Vec<(String, String)> = &*auto_brace.pairs;
    let mut ch_string = String::new();
    push_char(&mut ch_string, ch);
    let ch_str = ch_string.as_str();
    proof {
        assert(ch_str@ =~= seq![ch]);
    }
    let line_text = doc.line_index.line_text_at(doc.text, i32_to_usize(line));
    let char_col = i32_to_usize(lc.col);
    let line_char_len = line_text.unicode_len();
    let post_brace_pair = if char_col < line_char_len {
        find_close_pair_at_pos_str(pairs.as_slice(), line_text, char_col)
    } else {
        None
    };
    proof {
        lemma_first_close_from(auto_brace.pairs_view(), line_text@, char_col as int, 0);
    }
    let is_delim = auto_brace.has_string_delimiter(ch_str);
    if is_delim && char_col > 0 && !is_symbol(
        match nth_char(line_text, char_col - 1) {
            Some(c) => c,
            None => ' ',
        },
    ) && post_brace_pair.is_none() {
        return AutoBraceAction::InsertOnly;
    }
    if char_col < line_char_len && !is_symbol(
        match nth_char(line_text, char_col) {
            Some(c) => c,
            None => ' ',
        },
    ) {
        return AutoBraceAction::InsertOnly;
    }
    if let Some(pair_idx) = post_brace_pair {
        let close_key = pairs[pair_idx].1.as_str();
        proof {
            assert(auto_brace.pairs_view()[pair_idx as int] == (
                pairs@[pair_idx as int].0@,
                pairs@[pair_idx as int].1@,
            ));
        }
        let first = nth_char(close_key, 0);
        let starts_with_ch = match first {
            Some(c) => c == ch,
            None => false,
        };
        if starts_with_ch {
            let move_offset = usize_to_i32(close_key.unicode_len());
            return AutoBraceAction::SkipOver { move_cols: move_offset };
        }
    }
    let in_comment = match syntax {
        SyntaxRegion::Comment => true,
        _ => false,
    };
    let in_string = match syntax {
        SyntaxRegion::String => true,
        _ => false,
    };
    if in_comment || (in_string && is_delim) {
        return AutoBraceAction::InsertOnly;
    }
    match find_open_pair(pairs, ch_str) {
        Some(i) => AutoBraceAction::InsertWithClose { close: pairs[i].1.clone() },
        None => AutoBraceAction::InsertOnly,
    }
}

pub proof fn lemma_first_open_from(pv: Seq<(Seq<char>, Seq<char>)>, key: Seq<char>, i: int)
    requires
        0 <= i,
    ensures
        first_open_from(pv, key, i) matches Some(k) ==> i <= k < pv.len() && pv[k].0 == key,
    decreases pv.len() - i,
{
    if i < pv.len() && pv[i].0 != key {
        lemma_first_open_from(pv, key, i + 1);
    }
}

/// Index of the first pair whose open key is `key`.
fn find_open_pair(pairs: &Vec<(String, String)>, key: &str) -> (r: Option<usize>)
    ensures
        opt_int(r) == first_open_from(pair_views(pairs@), key@, 0),
        r matches Some(i) ==> i < pairs@.len() && pairs@[i as int].0@ == key@,
{
    let ghost pv = pair_views(pairs@);
    proof {
        lemma_first_open_from(pv, key@, 0);
    }
    let mut i: usize = 0;
    while i < pairs.len()
        invariant
            pv == pair_views(pairs@),
            i <= pairs@.len(),
            first_open_from(pv, key@, 0) == first_open_from(pv, key@, i as int),
        decreases pairs@.len() - i,
    {
        proof {
            assert(pv[i as int] == (pairs@[i as int].0@, pairs@[i as int].1@));
        }
        if str_equal(pairs[i].0.as_str(), key) {
            return Some(i);
        }
        i = i + 1;
    }
    None
}

/// Index of the first pair whose open key's bytes are `deleted` and whose
/// close key's bytes start `rest`.
pub open spec fn first_deleted_pair(
    pv: Seq<(Seq<char>, Seq<char>)>,
    deleted: Seq<u8>,
    rest: Seq<u8>,
    i: int,
) -> Option<int>
    decreases pv.len() - i,
{
    if i >= pv.len() || i < 0 {
        None
    } else if vstd::utf8::encode_utf8(pv[i].0) == deleted && vstd::utf8::encode_utf8(pv[i].1).len()
        <= rest.len() && rest.take(vstd::utf8::encode_utf8(pv[i].1).len() as int)
        == vstd::utf8::encode_utf8(pv[i].1) {
        Some(i)
    } else {
        first_deleted_pair(pv, deleted, rest, i + 1)
    }
}

/// Extra bytes to delete after deleting bytes `start..end` of `b`: the byte
/// length of the close key when the deleted text is an open key whose close
/// key follows it.
pub open spec fn delete_extra_spec(b: Seq<u8>, start: int, end: int, pv: Seq<(Seq<char>, Seq<char>)>) -> int {
    if pv.len() == 0 || end > b.len() {
        0
    } else {
        match first_deleted_pair(pv, b.subrange(start, end), b.skip(end), 0) {
            Some(i) => vstd::utf8::encode_utf8(pv[i].1).len() as int,
            None => 0,
        }
    }
}

/// Extra bytes to delete after deleting bytes `start..end`: the length of
/// the close key when the deleted text is an open key followed by its close
/// key, else 0.
pub fn compute_auto_brace_delete_extra(
    doc: &DocumentView,
    start: usize,
    end: usize,
    auto_brace: &AutoBraceSnapshot,
) -> (r: usize)
    requires
        auto_brace.pairs_view().len() > 0 && end <= doc.text.spec_bytes().len() ==> {
            &&& start <= end
            &&& is_char_boundary(doc.text.spec_bytes(), start as int)
            &&& is_char_boundary(doc.text.spec_bytes(), end as int)
        },
    ensures
        r == delete_extra_spec(doc.text.spec_bytes(), start as int, end as int, auto_brace.pairs_view()),
{
    let pairs: &Vec<(String, String)> = &*auto_brace.pairs;
    let tb = doc.text.as_bytes();
    if pairs.len() == 0 || end > tb.len() {
        return 0;
    }
    let deleted = substr_bytes(doc.text, start, end);
    let ghost pv = auto_brace.pairs_view();
    let ghost b = doc.text.spec_bytes();
    let mut i: usize = 0;
    while i < pairs.len()
        invariant
            pv == pair_views(pairs@),
            pv == auto_brace.pairs_view(),
            pv.len() > 0,
            b == doc.text.spec_bytes(),
            tb@ == b,
            deleted.spec_bytes() == b.subrange(start as int, end as int),
            end <= b.len(),
            i <= pairs@.len(),
            first_deleted_pair(pv, b.subrange(start as int, end as int), b.skip(end as int), 0)
                == first_deleted_pair(pv, b.subrange(start as int, end as int), b.skip(end as int), i as int),
        decreases pairs@.len() - i,
    {
        proof {
            assert(pv[i as int] == (pairs@[i as int].0@, pairs@[i as int].1@));
        }
        let open = pairs[i].0.as_str();
        let close = pairs[i].1.as_str();
        let ob = open.as_bytes();
        let cb = close.as_bytes();
        let db = deleted.as_bytes();
        if crate::reconcile::bytes_equal(db, ob) && cb.len() <= tb.len() - end && ranges_match(
            tb,
            end,
            cb,
        ) {
            proof {
                assert(b.skip(end as int).take(cb@.len() as int) =~= b.subrange(end as int, end + cb@.len()));
                assert(first_deleted_pair(pv, b.subrange(start as int, end as int), b.skip(end as int), i as int) == Some(i as int));
            }
            return cb.len();
        }
        proof {
            if cb@.len() <= tb@.len() - end {
                assert(b.skip(end as int).take(cb@.len() as int) =~= b.subrange(end as int, end + cb@.len()));
            }
        }
        i = i + 1;
    }
    0
}

/// Whether `p` occurs in `a` at `i`.
fn ranges_match(a: &[u8], i: usize, p: &[u8]) -> (r: bool)
    requires
        i + p@.len() <= a@.len(),
    ensures
        r == (a@.subrange(i as int, i + p@.len()) == p@),
{
    let alen = a.len();
    let mut j: usize = 0;
    while j < p.len()
        invariant
            j <= p@.len(),
            i + p@.len() <= a@.len(),
            alen == a@.len(),
            forall|q: int| 0 <= q < j ==> a@[i + q] == #[trigger] p@[q],
        decreases p@.len() - j,
    {
        if a[i + j] != p[j] {
            proof {
                assert(a@.subrange(i as int, i + p@.len())[j as int] != p@[j as int]);
            }
            return false;
        }
        j = j + 1;
    }
    proof {
        assert(a@.subrange(i as int, i + p@.len()) =~= p@);
    }
    true
}

/// Number of characters of `s` before its first space.
pub open spec fn before_space(s: Seq<char>) -> nat
    decreases s.len(),
{
    if s.len() == 0 || s[0] == ' ' {
        0
    } else {
        1 + before_space(s.drop_first())
    }
}

proof fn lemma_before_space(s: Seq<char>, n: int)
    requires
        0 <= n <= s.len(),
        forall|i: int| 0 <= i < n ==> #[trigger] s[i] != ' ',
        n < s.len() ==> s[n] == ' ',
    ensures
        before_space(s) == n,
    decreases n,
{
    if n > 0 {
        let d = s.drop_first();
        assert(s[0] != ' ');
        assert forall|i: int| 0 <= i < n - 1 implies #[trigger] d[i] != ' ' by {
            assert(d[i] == s[i + 1]);
        }
        if n - 1 < d.len() {
            assert(d[n - 1] == s[n]);
        }
        lemma_before_space(d, n - 1);
    }
}

/// The start key of a string delimiter given as `"start end"`: the text
/// before the first space, or all of it.
pub fn delimiter_start_key(entry: &str) -> (r: &str)
    ensures
        r@ == entry@.take(before_space(entry@) as int),
{
    let v = chars_of(entry);
    let mut k: usize = 0;
    while k < v.len() && v[k] != ' '
        invariant
            v@ == entry@,
            k <= v@.len(),
            forall|i: int| 0 <= i < k ==> #[trigger] v@[i] != ' ',
        decreases v@.len() - k,
    {
        k = k + 1;
    }
    proof {
        lemma_before_space(entry@, k as int);
        assert(entry@.subrange(0, k as int) =~= entry@.take(k as int));
    }
    entry.substring_char(0, k)
}

/// Byte length of a pair's open key.
pub open spec fn open_len(p: (Seq<char>, Seq<char>)) -> nat {
    vstd::utf8::encode_utf8(p.0).len()
}

/// Number of leading pairs of `s` whose open key is at least `n` bytes.
pub open spec fn longer_prefix(s: Seq<(Seq<char>, Seq<char>)>, n: nat) -> nat
    decreases s.len(),
{
    if s.len() == 0 || open_len(s[0]) < n {
        0
    } else {
        1 + longer_prefix(s.drop_first(), n)
    }
}

/// Pairs ordered by open-key byte length, longest first; pairs of equal
/// length keep their order.
pub open spec fn longest_first(s: Seq<(Seq<char>, Seq<char>)>) -> Seq<(Seq<char>, Seq<char>)>
    decreases s.len(),
{
    if s.len() == 0 {
        s
    } else {
        let t = longest_first(s.drop_last());
        t.insert(longer_prefix(t, open_len(s.last())) as int, s.last())
    }
}

proof fn lemma_longer_prefix(s: Seq<(Seq<char>, Seq<char>)>, n: nat, k: int)
    requires
        0 <= k <= s.len(),
        forall|i: int| 0 <= i < k ==> open_len(#[trigger] s[i]) >= n,
        k < s.len() ==> open_len(s[k]) < n,
    ensures
        longer_prefix(s, n) == k,
    decreases k,
{
    if k > 0 {
        let d = s.drop_first();
        assert(open_len(s[0]) >= n);
        assert forall|i: int| 0 <= i < k - 1 implies open_len(#[trigger] d[i]) >= n by {
            assert(d[i] == s[i + 1]);
        }
        if k - 1 < d.len() {
            assert(d[k - 1] == s[k]);
        }
        lemma_longer_prefix(d, n, k - 1);
    }
}

/// Sort pairs longest open key first (stable).
pub fn sort_pairs_longest_first(pairs: Vec<(String, String)>) -> (r: Vec<(String, String)>)
    ensures
        pair_views(r@) == longest_first(pair_views(pairs@)),
{
    let ghost src = pair_views(pairs@);
    let mut out: Vec<(String, String)> = Vec::new();
    let mut i: usize = 0;
    proof {
        assert(src.take(0) =~= Seq::<(Seq<char>, Seq<char>)>::empty());
        assert(pair_views(out@) =~= longest_first(src.take(0)));
    }
    while i < pairs.len()
        invariant
            src == pair_views(pairs@),
            i <= pairs@.len(),
            pair_views(out@) == longest_first(src.take(i as int)),
        decreases pairs@.len() - i,
    {
        let key_len = pairs[i].0.as_str().as_bytes().len();
        proof {
            assert(src[i as int] == (pairs@[i as int].0@, pairs@[i as int].1@));
            assert(src.take(i + 1).drop_last() =~= src.take(i as int));
            assert(src.take(i + 1).last() == src[i as int]);
        }
        let ghost t = pair_views(out@);
        let mut j: usize = 0;
        while j < out.len() && out[j].0.as_str().as_bytes().len() >= key_len
            invariant
                t == pair_views(out@),
                j <= out@.len(),
                forall|q: int| 0 <= q < j ==> open_len(#[trigger] t[q]) >= key_len,
            decreases out@.len() - j,
        {
            proof {
                assert(t[j as int] == (out@[j as int].0@, out@[j as int].1@));
            }
            j = j + 1;
        }
        proof {
            if j < out@.len() {
                assert(t[j as int] == (out@[j as int].0@, out@[j as int].1@));
            }
            lemma_longer_prefix(t, key_len as nat, j as int);
        }
        let item = (pairs[i].0.clone(), pairs[i].1.clone());
        out.insert(j, item);
        proof {
            assert(pair_views(out@) =~= t.insert(j as int, src[i as int]));
        }
        i = i + 1;
    }
    proof {
        assert(src.take(pairs@.len() as int) =~= src);
    }
    out
}

impl AutoBraceSnapshot {
    /// A snapshot from the editor's raw settings: the pairs sorted longest
    /// open key first, each delimiter reduced to its start key.
    pub fn from_parts(enabled: bool, raw_pairs: Vec<(String, String)>, raw_delimiters: Vec<String>) -> (r:
        Self)
        ensures
            r.enabled == enabled,
            r.pairs_view() == longest_first(pair_views(raw_pairs@)),
            r.delimiters_view().len() == raw_delimiters@.len(),
            forall|i: int|
                0 <= i < raw_delimiters@.len() ==> #[trigger] r.delimiters_view()[i]
                    == raw_delimiters@[i]@.take(before_space(raw_delimiters@[i]@) as int),
    {
        let pairs = sort_pairs_longest_first(raw_pairs);
        let mut delims: Vec<String> = Vec::new();
        let mut i: usize = 0;
        while i < raw_delimiters.len()
            invariant
                i <= raw_delimiters@.len(),
                delims@.len() == i,
                forall|q: int|
                    0 <= q < i ==> #[trigger] delims@[q]@ == raw_delimiters@[q]@.take(
                        before_space(raw_delimiters@[q]@) as int,
                    ),
            decreases raw_delimiters@.len() - i,
        {
            let key = delimiter_start_key(raw_delimiters[i].as_str());
            delims.push(key.to_owned());
            i = i + 1;
        }
        AutoBraceSnapshot { enabled, pairs: Rc::new(pairs), string_delimiters: delims }
    }
}

/// A pair of one-character keys as characters.
pub open spec fn char_pair_of(p: (Seq<char>, Seq<char>)) -> Option<(char, char)> {
    if p.0.len() == 1 && p.1.len() == 1 {
        Some((p.0[0], p.1[0]))
    } else {
        None
    }
}

/// The pairs the engine auto-pairs with: those whose open and close keys
/// are one character each, in order; `None` when auto-brace is off.
pub open spec fn engine_pairs_spec(enabled: bool, pv: Seq<(Seq<char>, Seq<char>)>) -> Option<Seq<(char, char)>> {
    if !enabled {
        None
    } else {
        Some(pv.filter_map(|p: (Seq<char>, Seq<char>)| char_pair_of(p)))
    }
}

/// The engine's auto-pairs from the editor's brace pairs.
pub fn engine_auto_pairs(enabled: bool, pairs: &Vec<(String, String)>) -> (r: Option<Vec<(char, char)>>)
    ensures
        match r {
            Some(v) => engine_pairs_spec(enabled, pair_views(pairs@)) == Some(v@),
            None => engine_pairs_spec(enabled, pair_views(pairs@)) is None,
        },
{
    if !enabled {
        return None;
    }
    let ghost pv = pair_views(pairs@);
    let ghost f = |p: (Seq<char>, Seq<char>)| char_pair_of(p);
    let mut out: Vec<(char, char)> = Vec::new();
    let mut i: usize = 0;
    while i < pairs.len()
        invariant
            i <= pairs@.len(),
            pv == pair_views(pairs@),
            f == (|p: (Seq<char>, Seq<char>)| char_pair_of(p)),
            out@ == pv.take(i as int).filter_map(f),
        decreases pairs@.len() - i,
    {
        let open: &str = pairs[i].0.as_str();
        let close: &str = pairs[i].1.as_str();
        proof {
            assert(pv[i as int] == (open@, close@));
            pv.lemma_filter_map_take_succ(f, i as int);
        }
        if open.unicode_len() == 1 && close.unicode_len() == 1 {
            let o = open.get_char(0);
            let c = close.get_char(0);
            out.push((o, c));
            proof {
                assert(f(pv[i as int]) == Some((o, c)));
                assert(out@ =~= pv.take(i + 1).filter_map(f));
            }
        } else {
            proof {
                assert(f(pv[i as int]) == None::<(char, char)>);
                assert(out@ =~= pv.take(i + 1).filter_map(f));
            }
        }
        i = i + 1;
    }
    proof {
        assert(pv.take(pairs@.len() as int) =~= pv);
    }
    Some(out)
}

} // verus!
