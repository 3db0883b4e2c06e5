//! Character classes, spans, trimming, line splitting and ASCII
//! case-insensitive comparison, stated over the character and byte views
//! of text.

use crate::text::chars_of;
use crate::text::push_char;
use vstd::prelude::*;
use vstd::string::StrSliceExecFns;
use vstd::string::StringSliceAdditionalSpecFns;

verus! {

broadcast use vstd::seq::group_seq_axioms;

/// Classes of characters that the configuration scanners skip over.
#[derive(Clone, Copy)]
pub enum CharClass {
    Whitespace,
    NotWhitespace,
    NotAsciiWhitespace,
    NotNewline,
    NotOptionDelimiter,
    RangeChar,
    Bang,
    Word,
    Quote,
}

/// Unicode alphanumeric (`Alphabetic` or `Numeric`), as `char::is_alphanumeric`
/// has it.
pub uninterp spec fn unicode_alphanumeric(c: char) -> bool;

/// Calls `char::is_alphanumeric`. The result is `unicode_alphanumeric(c)`;
/// among ASCII characters exactly the letters and digits are alphanumeric.
#[verifier::external_body]
pub fn char_is_alphanumeric(c: char) -> (r: bool)
    ensures
        r == unicode_alphanumeric(c),
        (c as u32) < 0x80 ==> (r <==> (('a' <= c <= 'z') || ('A' <= c <= 'Z') || ('0' <= c <= '9'))),
{
    c.is_alphanumeric()
}

/// Word characters: alphanumeric or `_`.
pub open spec fn word_char(c: char) -> bool {
    unicode_alphanumeric(c) || c == '_'
}

/// Unicode `White_Space`.
pub open spec fn is_unicode_ws(c: char) -> bool {
    let u = c as u32;
    ||| 0x09 <= u <= 0x0D
    ||| u == 0x20
    ||| u == 0x85
    ||| u == 0xA0
    ||| u == 0x1680
    ||| 0x2000 <= u <= 0x200A
    ||| u == 0x2028
    ||| u == 0x2029
    ||| u == 0x202F
    ||| u == 0x205F
    ||| u == 0x3000
}

/// ASCII whitespace as `char::is_ascii_whitespace` has it (no vertical tab).
pub open spec fn is_ascii_ws(c: char) -> bool {
    c == ' ' || c == '\t' || c == '\n' || c == '\x0C' || c == '\r'
}

/// Characters of an ex range: digits and `% $ . ' , + - < >` and space.
pub open spec fn is_range_char(c: char) -> bool {
    ||| '0' <= c <= '9'
    ||| c == '%'
    ||| c == '$'
    ||| c == '.'
    ||| c == '\''
    ||| c == ','
    ||| c == '+'
    ||| c == '-'
    ||| c == '<'
    ||| c == '>'
    ||| c == ' '
}

/// Characters that end an option name inside a `:set` token.
pub open spec fn is_option_delimiter(c: char) -> bool {
    c == '=' || c == '?' || c == '!' || c == '+' || c == '-' || c == ':'
}

pub open spec fn in_class(c: char, k: CharClass) -> bool {
    match k {
        CharClass::Whitespace => is_unicode_ws(c),
        CharClass::NotWhitespace => !is_unicode_ws(c),
        CharClass::NotAsciiWhitespace => !is_ascii_ws(c),
        CharClass::NotNewline => c != '\n',
        CharClass::NotOptionDelimiter => !is_option_delimiter(c),
        CharClass::RangeChar => is_range_char(c),
        CharClass::Bang => c == '!',
        CharClass::Word => word_char(c),
        CharClass::Quote => c == '"',
    }
}

/// Whether `c` is Unicode whitespace.
pub fn is_whitespace(c: char) -> (r: bool)
    ensures
        r == is_unicode_ws(c),
{
    let u = c as u32;
    (0x09 <= u && u <= 0x0D) || u == 0x20 || u == 0x85 || u == 0xA0 || u == 0x1680 || (0x2000
        <= u && u <= 0x200A) || u == 0x2028 || u == 0x2029 || u == 0x202F || u == 0x205F || u
        == 0x3000
}

/// Whether `c` is ASCII whitespace.
pub fn is_ascii_whitespace(c: char) -> (r: bool)
    ensures
        r == is_ascii_ws(c),
{
    c == ' ' || c == '\t' || c == '\n' || c == '\x0C' || c == '\r'
}

/// Whether `c` belongs to class `k`.
pub fn class_has(c: char, k: CharClass) -> (r: bool)
    ensures
        r == in_class(c, k),
{
    match k {
        CharClass::Whitespace => is_whitespace(c),
        CharClass::NotWhitespace => !is_whitespace(c),
        CharClass::NotAsciiWhitespace => !is_ascii_whitespace(c),
        CharClass::NotNewline => c != '\n',
        CharClass::NotOptionDelimiter => !(c == '=' || c == '?' || c == '!' || c == '+' || c
            == '-' || c == ':'),
        CharClass::RangeChar => ('0' <= c && c <= '9') || c == '%' || c == '$' || c == '.' || c
            == '\'' || c == ',' || c == '+' || c == '-' || c == '<' || c == '>' || c == ' ',
        CharClass::Bang => c == '!',
        CharClass::Word => char_is_alphanumeric(c) || c == '_',
        CharClass::Quote => c == '"',
    }
}

/// Length of the longest prefix of `s` whose characters are all in `k`.
pub open spec fn span(s: Seq<char>, k: CharClass) -> nat
    decreases s.len(),
{
    if s.len() == 0 || !in_class(s[0], k) {
        0
    } else {
        1 + span(s.drop_first(), k)
    }
}

/// Length of the longest suffix of `s` whose characters are all in `k`.
pub open spec fn rspan(s: Seq<char>, k: CharClass) -> nat
    decreases s.len(),
{
    if s.len() == 0 || !in_class(s.last(), k) {
        0
    } else {
        1 + rspan(s.drop_last(), k)
    }
}

pub proof fn lemma_span(s: Seq<char>, k: CharClass)
    ensures
        span(s, k) <= s.len(),
        forall|i: int| 0 <= i < span(s, k) ==> in_class(#[trigger] s[i], k),
        span(s, k) < s.len() ==> !in_class(s[span(s, k) as int], k),
    decreases s.len(),
{
    if s.len() > 0 && in_class(s[0], k) {
        lemma_span(s.drop_first(), k);
        assert forall|i: int| 0 <= i < span(s, k) implies in_class(#[trigger] s[i], k) by {
            if i > 0 {
                assert(s[i] == s.drop_first()[i - 1]);
            }
        }
    }
}

/// A prefix length with the `span` property is the span.
pub proof fn lemma_span_unique(s: Seq<char>, k: CharClass, n: int)
    requires
        0 <= n <= s.len(),
        forall|i: int| 0 <= i < n ==> in_class(#[trigger] s[i], k),
        n < s.len() ==> !in_class(s[n], k),
    ensures
        span(s, k) == n,
    decreases n,
{
    if n > 0 {
        let d = s.drop_first();
        assert forall|i: int| 0 <= i < n - 1 implies in_class(#[trigger] d[i], k) by {
            assert(d[i] == s[i + 1]);
        }
        if n - 1 < d.len() {
            assert(d[n - 1] == s[n]);
        }
        lemma_span_unique(d, k, n - 1);
    }
}

pub proof fn lemma_rspan(s: Seq<char>, k: CharClass)
    ensures
        rspan(s, k) <= s.len(),
        forall|i: int| s.len() - rspan(s, k) <= i < s.len() ==> in_class(#[trigger] s[i], k),
        rspan(s, k) < s.len() ==> !in_class(s[s.len() - 1 - rspan(s, k)], k),
    decreases s.len(),
{
    if s.len() > 0 && in_class(s.last(), k) {
        lemma_rspan(s.drop_last(), k);
        assert forall|i: int| s.len() - rspan(s, k) <= i < s.len() implies in_class(
            #[trigger] s[i],
            k,
        ) by {
            if i < s.len() - 1 {
                assert(s[i] == s.drop_last()[i]);
            }
        }
        if rspan(s, k) < s.len() {
            assert(s[s.len() - 1 - rspan(s, k)] == s.drop_last()[s.drop_last().len() - 1
                - rspan(s.drop_last(), k)]);
        }
    }
}

/// A suffix length with the `rspan` property is the rspan.
pub proof fn lemma_rspan_unique(s: Seq<char>, k: CharClass, n: int)
    requires
        0 <= n <= s.len(),
        forall|i: int| s.len() - n <= i < s.len() ==> in_class(#[trigger] s[i], k),
        n < s.len() ==> !in_class(s[s.len() - 1 - n], k),
    ensures
        rspan(s, k) == n,
    decreases n,
{
    if n > 0 {
        let d = s.drop_last();
        assert forall|i: int| d.len() - (n - 1) <= i < d.len() implies in_class(
            #[trigger] d[i],
            k,
        ) by {
            assert(d[i] == s[i]);
        }
        if n - 1 < d.len() {
            assert(d[d.len() - 1 - (n - 1)] == s[s.len() - 1 - n]);
        }
        lemma_rspan_unique(d, k, n - 1);
    }
}

/// Index of the first character at or after `start` in `v` that is not in
/// `k` (or the length of `v`).
pub fn span_end(v: &Vec<char>, start: usize, k: CharClass) -> (r: usize)
    requires
        start <= v@.len(),
    ensures
        r == start + span(v@.skip(start as int), k),
        start <= r <= v@.len(),
{
    let mut i = start;
    while i < v.len() && class_has(v[i], k)
        invariant
            start <= i <= v@.len(),
            forall|j: int| start <= j < i ==> in_class(#[trigger] v@[j], k),
        decreases v@.len() - i,
    {
        i = i + 1;
    }
    proof {
        let s = v@.skip(start as int);
        assert forall|j: int| 0 <= j < i - start implies in_class(#[trigger] s[j], k) by {
            assert(s[j] == v@[start + j]);
        }
        if i < v@.len() {
            assert(s[i - start] == v@[i as int]);
        }
        lemma_span_unique(s, k, i - start);
    }
    i
}

/// Index just past the last character before `end` in `v` that is not in
/// `k` (or 0).
pub fn rspan_start(v: &Vec<char>, end: usize, k: CharClass) -> (r: usize)
    requires
        end <= v@.len(),
    ensures
        r == end - rspan(v@.take(end as int), k),
        r <= end,
{
    let mut i = end;
    while i > 0 && class_has(v[i - 1], k)
        invariant
            i <= end <= v@.len(),
            forall|j: int| i <= j < end ==> in_class(#[trigger] v@[j], k),
        decreases i,
    {
        i = i - 1;
    }
    proof {
        let s = v@.take(end as int);
        assert forall|j: int| s.len() - (end - i) <= j < s.len() implies in_class(
            #[trigger] s[j],
            k,
        ) by {
            assert(s[j] == v@[j]);
        }
        if end - i < s.len() {
            assert(s[s.len() - 1 - (end - i)] == v@[i - 1]);
        }
        lemma_rspan_unique(s, k, end - i);
    }
    i
}

/// `s` without leading Unicode whitespace.
pub open spec fn trim_start_spec(s: Seq<char>) -> Seq<char> {
    s.skip(span(s, CharClass::Whitespace) as int)
}

/// `s` without trailing Unicode whitespace.
pub open spec fn trim_end_spec(s: Seq<char>) -> Seq<char> {
    s.take(s.len() - rspan(s, CharClass::Whitespace))
}

/// `s` without leading and trailing Unicode whitespace.
pub open spec fn trim_spec(s: Seq<char>) -> Seq<char> {
    trim_end_spec(trim_start_spec(s))
}

/// `s` with leading and trailing Unicode whitespace removed.
pub fn trim(s: &str) -> (r: &str)
    ensures
        r@ == trim_spec(s@),
{
    let v = chars_of(s);
    let a = span_end(&v, 0, CharClass::Whitespace);
    let b = rspan_start(&v, v.len(), CharClass::Whitespace);
    proof {
        lemma_span(s@, CharClass::Whitespace);
        lemma_rspan(s@, CharClass::Whitespace);
        assert(v@.skip(0) =~= s@);
        assert(v@.take(v@.len() as int) =~= s@);
    }
    if b <= a {
        proof {
            let t = trim_start_spec(s@);
            let n = span(s@, CharClass::Whitespace) as int;
            assert forall|j: int| t.len() - t.len() <= j < t.len() implies in_class(
                #[trigger] t[j],
                CharClass::Whitespace,
            ) by {
                assert(t[j] == s@[n + j]);
                let r = rspan(s@, CharClass::Whitespace) as int;
                assert(s@.len() - r <= n + j);
            }
            lemma_rspan_unique(t, CharClass::Whitespace, t.len() as int);
        }
        return s.substring_char(a, a);
    }
    proof {
        let t = trim_start_spec(s@);
        let n = span(s@, CharClass::Whitespace) as int;
        let r = rspan(s@, CharClass::Whitespace) as int;
        assert forall|j: int| t.len() - r <= j < t.len() implies in_class(
            #[trigger] t[j],
            CharClass::Whitespace,
        ) by {
            assert(t[j] == s@[n + j]);
        }
        assert(t[t.len() - 1 - r] == s@[s@.len() - 1 - r]);
        lemma_rspan_unique(t, CharClass::Whitespace, r);
        assert(trim_spec(s@) =~= s@.subrange(a as int, b as int));
    }
    s.substring_char(a, b)
}

/// `s` with leading Unicode whitespace removed.
pub fn trim_start(s: &str) -> (r: &str)
    ensures
        r@ == trim_start_spec(s@),
{
    let v = chars_of(s);
    let a = span_end(&v, 0, CharClass::Whitespace);
    proof {
        assert(v@.skip(0) =~= s@);
    }
    s.substring_char(a, v.len())
}

/// `p` is a prefix of `s`.
pub open spec fn starts_with(s: Seq<char>, p: Seq<char>) -> bool {
    p.len() <= s.len() && s.take(p.len() as int) == p
}

/// `p` occurs in `s` at index `i`.
pub open spec fn occurs_at(s: Seq<char>, p: Seq<char>, i: int) -> bool {
    0 <= i && i + p.len() <= s.len() && s.subrange(i, i + p.len()) == p
}

/// `p` occurs somewhere in `s`.
pub open spec fn contains_seq(s: Seq<char>, p: Seq<char>) -> bool {
    exists|i: int| occurs_at(s, p, i)
}

/// Whether `p` occurs in `v` at index `i`.
fn occurs_at_exec(v: &Vec<char>, p: &Vec<char>, i: usize) -> (r: bool)
    ensures
        r == occurs_at(v@, p@, i as int),
{
    if p.len() > v.len() || i > v.len() - p.len() {
        return false;
    }
    let mut j: usize = 0;
    while j < p.len()
        invariant
            j <= p@.len(),
            i + p@.len() <= v@.len(),
            v@.len() <= usize::MAX,
            forall|q: int| 0 <= q < j ==> v@[i + q] == #[trigger] p@[q],
        decreases p@.len() - j,
    {
        if v[i + j] != p[j] {
            proof {
                assert(v@.subrange(i as int, i + p@.len())[j as int] != p@[j as int]);
            }
            return false;
        }
        j = j + 1;
    }
    proof {
        assert(v@.subrange(i as int, i + p@.len()) =~= p@);
    }
    true
}

/// Whether `s` starts with `p`.
pub fn str_starts_with(s: &str, p: &str) -> (r: bool)
    ensures
        r == starts_with(s@, p@),
{
    let v = chars_of(s);
    let w = chars_of(p);
    let r = occurs_at_exec(&v, &w, 0);
    proof {
        assert(v@.subrange(0, w@.len() as int) == v@.take(w@.len() as int));
    }
    r
}

/// Whether `p` occurs in `s`.
pub fn str_contains(s: &str, p: &str) -> (r: bool)
    ensures
        r == contains_seq(s@, p@),
{
    let v = chars_of(s);
    let w = chars_of(p);
    let mut i: usize = 0;
    loop
        invariant
            v@ == s@,
            w@ == p@,
            i <= v@.len(),
            forall|q: int| 0 <= q < i ==> !occurs_at(s@, p@, q),
        decreases v@.len() - i,
    {
        if occurs_at_exec(&v, &w, i) {
            return true;
        }
        if i == v.len() {
            proof {
                assert forall|q: int| !occurs_at(s@, p@, q) by {
                    if 0 <= q < i {
                    }
                }
            }
            return false;
        }
        i = i + 1;
    }
}

/// Lowercase of `s` by the Unicode `Lowercase` mapping, as
/// `str::to_lowercase` has it.
pub uninterp spec fn unicode_lowercase(s: Seq<char>) -> Seq<char>;

/// Calls `str::to_lowercase`; the result is `unicode_lowercase(s@)`.
#[verifier::external_body]
pub fn str_to_lowercase(s: &str) -> (r: String)
    ensures
        r@ == unicode_lowercase(s@),
{
    s.to_lowercase()
}

/// Whether `a` and `b` hold the same characters.
pub fn str_equal(a: &str, b: &str) -> (r: bool)
    ensures
        r == (a@ == b@),
{
    if a.unicode_len() != b.unicode_len() {
        return false;
    }
    let r = str_starts_with(a, b);
    proof {
        assert(a@.take(b@.len() as int) =~= a@);
    }
    r
}

/// `l` without one trailing carriage return.
pub open spec fn strip_cr(l: Seq<char>) -> Seq<char> {
    if l.len() > 0 && l.last() == '\r' {
        l.drop_last()
    } else {
        l
    }
}

/// The lines of `s` as `str::lines` yields them: split at each `\n`, a
/// `\r` right before a `\n` dropped, no final empty line after a trailing
/// `\n`.
pub open spec fn lines_of(s: Seq<char>) -> Seq<Seq<char>>
    decreases s.len(),
{
    if s.len() == 0 {
        seq![]
    } else {
        let e = span(s, CharClass::NotNewline) as int;
        if e >= s.len() {
            seq![s]
        } else {
            seq![strip_cr(s.take(e))] + lines_of(s.skip(e + 1))
        }
    }
}

/// Tokens of `s` separated by runs of Unicode whitespace.
pub open spec fn split_ws(s: Seq<char>) -> Seq<Seq<char>>
    decreases s.len(),
{
    if s.len() == 0 {
        seq![]
    } else if is_unicode_ws(s[0]) {
        split_ws(s.drop_first())
    } else {
        let e = span(s, CharClass::NotWhitespace) as int;
        proof {
            lemma_span(s, CharClass::NotWhitespace);
        }
        seq![s.take(e)] + split_ws(s.skip(e))
    }
}

/// ASCII lowercase of a byte.
pub open spec fn lower_byte(b: u8) -> u8 {
    if 65 <= b <= 90 {
        (b + 32) as u8
    } else {
        b
    }
}

/// Byte sequences equal up to ASCII case.
pub open spec fn eq_ic(a: Seq<u8>, b: Seq<u8>) -> bool {
    a.len() == b.len() && forall|i: int| 0 <= i < a.len() ==> lower_byte(a[i]) == lower_byte(b[i])
}

/// Whether the first `n` bytes of `a` and of `b` agree up to ASCII case.
pub fn prefix_eq_ignore_ascii_case(a: &[u8], b: &[u8], n: usize) -> (r: bool)
    requires
        n <= a@.len(),
        n <= b@.len(),
    ensures
        r == eq_ic(a@.take(n as int), b@.take(n as int)),
{
    let mut i: usize = 0;
    while i < n
        invariant
            i <= n <= a@.len(),
            n <= b@.len(),
            forall|q: int| 0 <= q < i ==> lower_byte(a@[q]) == lower_byte(#[trigger] b@[q]),
        decreases n - i,
    {
        let x = a[i];
        let y = b[i];
        let lx = if 65 <= x && x <= 90 {
            x + 32
        } else {
            x
        };
        let ly = if 65 <= y && y <= 90 {
            y + 32
        } else {
            y
        };
        if lx != ly {
            proof {
                assert(a@.take(n as int)[i as int] == x);
                assert(b@.take(n as int)[i as int] == y);
            }
            return false;
        }
        i = i + 1;
    }
    proof {
        assert forall|q: int| 0 <= q < n implies lower_byte(a@.take(n as int)[q]) == lower_byte(
            b@.take(n as int)[q],
        ) by {
            assert(a@.take(n as int)[q] == a@[q]);
            assert(b@.take(n as int)[q] == b@[q]);
        }
    }
    true
}

/// `str::eq_ignore_ascii_case`: equal bytes up to ASCII case.
pub fn eq_ignore_ascii_case(a: &str, b: &str) -> (r: bool)
    ensures
        r == eq_ic(a.spec_bytes(), b.spec_bytes()),
{
    let x = a.as_bytes();
    let y = b.as_bytes();
    if x.len() != y.len() {
        return false;
    }
    let r = prefix_eq_ignore_ascii_case(x, y, x.len());
    proof {
        assert(x@.take(x@.len() as int) =~= x@);
        assert(y@.take(y@.len() as int) =~= y@);
    }
    r
}

/// ASCII lowercase of a character.
pub open spec fn lower_char(c: char) -> char {
    if 'A' <= c <= 'Z' {
        ((c as u8) + 32) as char
    } else {
        c
    }
}

/// ASCII lowercase of a character sequence.
pub open spec fn ascii_lower(s: Seq<char>) -> Seq<char> {
    Seq::new(s.len(), |i: int| lower_char(s[i]))
}

/// `str::to_ascii_lowercase`.
pub fn to_ascii_lowercase(s: &str) -> (r: String)
    ensures
        r@ == ascii_lower(s@),
{
    let v = chars_of(s);
    let mut out = String::new();
    let mut i: usize = 0;
    while i < v.len()
        invariant
            v@ == s@,
            i <= v@.len(),
            out@ =~= ascii_lower(s@).take(i as int),
        decreases v@.len() - i,
    {
        let c = v[i];
        let l = if 'A' <= c && c <= 'Z' {
            ((c as u8) + 32) as char
        } else {
            c
        };
        push_char(&mut out, l);
        i = i + 1;
    }
    out
}

} // verus!
