//! Text model shared by the whole library.
//!
//! A `&str` is viewed as its `Seq<char>`; its bytes are `encode_utf8` of
//! that sequence. Byte offsets that fall between characters are
//! `byte_len(s.take(k))` for a character index `k`.

use vstd::prelude::*;
use vstd::string::StringSliceAdditionalSpecFns;
use vstd::utf8::*;

verus! {

broadcast use vstd::seq::group_seq_axioms;

/// Number of bytes in the UTF-8 encoding of `c`.
pub open spec fn width(c: char) -> nat {
    encode_scalar(c as u32).len()
}

/// Number of bytes in the UTF-8 encoding of `cs`.
pub open spec fn byte_len(cs: Seq<char>) -> nat {
    encode_utf8(cs).len()
}

/// Byte offset of character index `k` in `cs`.
pub open spec fn byte_at(cs: Seq<char>, k: int) -> int {
    byte_len(cs.take(k)) as int
}

pub proof fn lemma_width_bounds(c: char)
    ensures
        1 <= width(c) <= 4,
        width(c) == 1 <==> (c as u32) < 0x80,
{
}

pub proof fn lemma_encode_single(c: char)
    ensures
        encode_utf8(seq![c]) == encode_scalar(c as u32),
{
    reveal_with_fuel(encode_utf8, 2);
    assert(seq![c].drop_first() =~= Seq::<char>::empty());
    assert(encode_utf8(Seq::<char>::empty()) =~= Seq::<u8>::empty());
    assert(encode_scalar(c as u32) + Seq::<u8>::empty() =~= encode_scalar(c as u32));
}

/// Encoding distributes over concatenation.
pub proof fn lemma_encode_concat(a: Seq<char>, b: Seq<char>)
    ensures
        encode_utf8(a + b) == encode_utf8(a) + encode_utf8(b),
    decreases a.len(),
{
    if a.len() == 0 {
        assert(a + b =~= b);
        assert(encode_utf8(a) + encode_utf8(b) =~= encode_utf8(b));
    } else {
        assert((a + b)[0] == a[0]);
        assert((a + b).drop_first() =~= a.drop_first() + b);
        lemma_encode_concat(a.drop_first(), b);
        assert(encode_utf8(a + b) =~= encode_utf8(a) + encode_utf8(b));
    }
}

/// Extending a prefix by one character adds that character's width.
pub proof fn lemma_byte_at_step(cs: Seq<char>, k: int)
    requires
        0 <= k < cs.len(),
    ensures
        byte_at(cs, k + 1) == byte_at(cs, k) + width(cs[k]),
        encode_utf8(cs.take(k + 1)) == encode_utf8(cs.take(k)) + encode_scalar(cs[k] as u32),
{
    assert(cs.take(k + 1) =~= cs.take(k) + seq![cs[k]]);
    lemma_encode_concat(cs.take(k), seq![cs[k]]);
    lemma_encode_single(cs[k]);
}

/// Byte offsets of character indices are monotone.
pub proof fn lemma_byte_at_mono(cs: Seq<char>, i: int, j: int)
    requires
        0 <= i <= j <= cs.len(),
    ensures
        byte_at(cs, i) <= byte_at(cs, j),
        i < j ==> byte_at(cs, i) < byte_at(cs, j),
        byte_at(cs, j) - byte_at(cs, i) >= j - i,
        byte_at(cs, j) - byte_at(cs, i) <= 4 * (j - i),
    decreases j - i,
{
    if i < j {
        lemma_byte_at_mono(cs, i, j - 1);
        lemma_byte_at_step(cs, j - 1);
        lemma_width_bounds(cs[j - 1]);
    }
}

pub proof fn lemma_byte_at_full(cs: Seq<char>)
    ensures
        byte_at(cs, cs.len() as int) == byte_len(cs),
        byte_at(cs, 0) == 0,
{
    assert(cs.take(cs.len() as int) =~= cs);
    assert(cs.take(0) =~= Seq::<char>::empty());
}

/// The bytes of a character subrange are the matching subrange of the bytes.
pub proof fn lemma_encode_subrange(cs: Seq<char>, a: int, b: int)
    requires
        0 <= a <= b <= cs.len(),
    ensures
        encode_utf8(cs.subrange(a, b)) == encode_utf8(cs).subrange(byte_at(cs, a), byte_at(cs, b)),
        byte_len(cs.subrange(a, b)) == byte_at(cs, b) - byte_at(cs, a),
{
    assert(cs =~= cs.take(a) + cs.subrange(a, b) + cs.skip(b));
    lemma_encode_concat(cs.take(a), cs.subrange(a, b));
    lemma_encode_concat(cs.take(a) + cs.subrange(a, b), cs.skip(b));
    assert(cs.take(b) =~= cs.take(a) + cs.subrange(a, b));
    let e = encode_utf8(cs);
    assert(encode_utf8(cs.subrange(a, b)) =~= e.subrange(byte_at(cs, a), byte_at(cs, b)));
}

/// Every character offset is a character boundary of the encoding.
pub proof fn lemma_byte_at_is_boundary(cs: Seq<char>, k: int)
    requires
        0 <= k <= cs.len(),
    ensures
        is_char_boundary(encode_utf8(cs), byte_at(cs, k)),
    decreases cs.len(),
{
    broadcast use encode_utf8_valid_utf8;

    if k == 0 {
        assert(cs.take(0) =~= Seq::<char>::empty());
    } else {
        let e = encode_utf8(cs);
        encode_utf8_first_scalar(cs);
        let rest = cs.drop_first();
        assert(pop_first_scalar(e) =~= encode_utf8(rest));
        lemma_byte_at_is_boundary(rest, k - 1);
        assert(cs.take(k) =~= seq![cs[0]] + rest.take(k - 1));
        lemma_encode_concat(seq![cs[0]], rest.take(k - 1));
        lemma_encode_single(cs[0]);
        lemma_byte_at_mono(cs, k, cs.len() as int);
        lemma_byte_at_full(cs);
    }
}

/// Encoding is injective.
pub proof fn lemma_encode_injective(a: Seq<char>, b: Seq<char>)
    requires
        encode_utf8(a) == encode_utf8(b),
    ensures
        a == b,
{
    encode_utf8_decode_utf8(a);
    encode_utf8_decode_utf8(b);
}

/// The bytes of a multi-byte character are all at least 0x80.
pub proof fn lemma_scalar_bytes(c: char, j: int)
    requires
        0 <= j < width(c),
    ensures
        encode_scalar(c as u32)[j] == 10u8 <==> (c == '\n' && j == 0),
        width(c) > 1 ==> encode_scalar(c as u32)[j] >= 0x80,
        width(c) == 1 ==> encode_scalar(c as u32)[0] == (c as u32) as u8,
        j >= 1 ==> is_continuation_byte(encode_scalar(c as u32)[j]),
        j == 0 ==> !is_continuation_byte(encode_scalar(c as u32)[j]),
{
    let u = c as u32;
    vstd::utf8::char_is_scalar(c);
    if has_width_1_encoding(u) {
        assert((u & 0x7F) as u8 == u as u8) by (bit_vector)
            requires
                u <= 0x7F,
        ;
        assert(u <= 0x7F ==> (u as u8 == 10u8 <==> u == 10u32)) by (bit_vector);
        assert(('\n' as u32) == 10u32);
        if u == 10u32 {
            vstd::utf8::char_u32_cast(c, u);
            vstd::utf8::char_u32_cast('\n', 10u32);
        }
    } else {
        assert(0x80u8 <= 0x80u8 | ((u & 0x3F) as u8) <= 0xbfu8) by (bit_vector);
        assert(0x80u8 <= 0x80u8 | (((u >> 6) & 0x3F) as u8) <= 0xbfu8) by (bit_vector);
        assert(0x80u8 <= 0x80u8 | (((u >> 12) & 0x3F) as u8) <= 0xbfu8) by (bit_vector);
        assert(0xc0u8 <= 0xC0u8 | (((u >> 6) & 0x1F) as u8) <= 0xdfu8) by (bit_vector);
        assert(0xe0u8 <= 0xE0u8 | (((u >> 12) & 0x0F) as u8) <= 0xefu8) by (bit_vector);
        assert(0xf0u8 <= 0xF0u8 | (((u >> 18) & 0x7) as u8) <= 0xf7u8) by (bit_vector);
        if c == '\n' {
            assert(('\n' as u32) == 10u32);
        }
    }
}

/// A byte of the encoding equals `\n` exactly where a newline character starts.
pub proof fn lemma_newline_byte(cs: Seq<char>, k: int, j: int)
    requires
        0 <= k < cs.len(),
        0 <= j < width(cs[k]),
    ensures
        encode_utf8(cs)[byte_at(cs, k) + j] == encode_scalar(cs[k] as u32)[j],
        byte_at(cs, k) + j < byte_len(cs),
{
    lemma_encode_subrange(cs, k, k + 1);
    lemma_byte_at_step(cs, k);
    assert(cs.subrange(k, k + 1) =~= seq![cs[k]]);
    lemma_encode_single(cs[k]);
    lemma_byte_at_mono(cs, k + 1, cs.len() as int);
    lemma_byte_at_full(cs);
}

/// Every byte position lies inside the encoding of exactly one character.
pub proof fn lemma_byte_owner(cs: Seq<char>, p: int) -> (k: int)
    requires
        0 <= p < byte_len(cs),
    ensures
        0 <= k < cs.len(),
        byte_at(cs, k) <= p < byte_at(cs, k + 1),
    decreases cs.len(),
{
    lemma_byte_at_full(cs);
    let n = cs.len() as int;
    if n == 0 {
        0
    } else {
        lemma_byte_at_step(cs, n - 1);
        if p >= byte_at(cs, n - 1) {
            n - 1
        } else {
            let d = cs.drop_last();
            assert(d.take(n - 1) =~= d);
            assert(cs.take(n - 1) =~= d);
            let k = lemma_byte_owner(d, p);
            assert(cs.take(k) =~= d.take(k));
            assert(cs.take(k + 1) =~= d.take(k + 1));
            k
        }
    }
}

/// A byte position that is a character boundary is the offset of some character index.
pub proof fn lemma_boundary_is_byte_at(cs: Seq<char>, p: int) -> (k: int)
    requires
        0 <= p <= byte_len(cs),
        is_char_boundary(encode_utf8(cs), p),
    ensures
        0 <= k <= cs.len(),
        byte_at(cs, k) == p,
{
    lemma_byte_at_full(cs);
    if p == byte_len(cs) {
        cs.len() as int
    } else {
        let k = lemma_byte_owner(cs, p);
        if byte_at(cs, k) == p {
            k
        } else {
            let j = p - byte_at(cs, k);
            lemma_byte_at_step(cs, k);
            lemma_newline_byte(cs, k, j);
            lemma_scalar_bytes(cs[k], j);
            encode_utf8_valid_utf8(cs);
            is_char_boundary_iff_not_is_continuation_byte(encode_utf8(cs), p);
            k
        }
    }
}

/// Number of leading characters of `cs` whose encoding fits in `off` bytes.
pub open spec fn chars_within(cs: Seq<char>, off: int) -> int
    decreases cs.len(),
{
    if cs.len() == 0 {
        0
    } else if byte_len(cs) <= off {
        cs.len() as int
    } else {
        chars_within(cs.drop_last(), off)
    }
}

/// `chars_within` is the largest character index whose byte offset is at most `off`.
pub proof fn lemma_chars_within(cs: Seq<char>, off: int)
    requires
        off >= 0,
    ensures
        0 <= chars_within(cs, off) <= cs.len(),
        byte_at(cs, chars_within(cs, off)) <= off,
        chars_within(cs, off) < cs.len() ==> byte_at(cs, chars_within(cs, off) + 1) > off,
    decreases cs.len(),
{
    lemma_byte_at_full(cs);
    let n = cs.len() as int;
    if n > 0 && byte_len(cs) > off {
        let d = cs.drop_last();
        lemma_chars_within(d, off);
        let r = chars_within(d, off);
        assert(cs.take(r) =~= d.take(r));
        if r < d.len() {
            assert(cs.take(r + 1) =~= d.take(r + 1));
        } else {
            assert(d.take(n - 1) =~= d);
            assert(cs.take(n - 1) =~= d);
            assert(cs.take(n) =~= cs);
        }
    }
}

/// Any index with the `chars_within` property equals it.
pub proof fn lemma_chars_within_unique(cs: Seq<char>, off: int, k: int)
    requires
        off >= 0,
        0 <= k <= cs.len(),
        byte_at(cs, k) <= off,
        k < cs.len() ==> byte_at(cs, k + 1) > off,
    ensures
        chars_within(cs, off) == k,
{
    lemma_chars_within(cs, off);
    let r = chars_within(cs, off);
    if r < k {
        lemma_byte_at_mono(cs, r + 1, k);
    } else if r > k {
        lemma_byte_at_mono(cs, k + 1, r);
    }
}

/// Byte offsets inside a character subrange are offsets of the whole shifted down.
pub proof fn lemma_byte_at_subrange(cs: Seq<char>, a: int, e: int, j: int)
    requires
        0 <= a <= e <= cs.len(),
        0 <= j <= e - a,
    ensures
        byte_at(cs.subrange(a, e), j) == byte_at(cs, a + j) - byte_at(cs, a),
{
    assert(cs.subrange(a, e).take(j) =~= cs.subrange(a, a + j));
    lemma_encode_subrange(cs, a, a + j);
}

/// Width of a character, computed from its scalar value.
pub fn char_width(c: char) -> (w: usize)
    ensures
        w == width(c),
        1 <= w <= 4,
{
    let u = c as u32;
    proof {
        vstd::utf8::char_is_scalar(c);
    }
    if u < 0x80 {
        1
    } else if u < 0x800 {
        2
    } else if u < 0x10000 {
        3
    } else {
        4
    }
}

/// Byte length of `s`.
pub fn str_byte_len(s: &str) -> (r: usize)
    ensures
        r == byte_len(s@),
        s@.len() <= r,
{
    proof {
        lemma_byte_at_mono(s@, 0, s@.len() as int);
        lemma_byte_at_full(s@);
    }
    s.as_bytes().len()
}

/// The characters of `s` in order.
pub fn chars_of(s: &str) -> (v: Vec<char>)
    ensures
        v@ == s@,
{
    let mut v: Vec<char> = Vec::new();
    for c in it: s.chars()
        invariant
            v@ == it.seq().take(it.index() as int),
            it.seq() == s@,
    {
        v.push(c);
    }
    v
}

/// Byte offsets of every character index: `res[k] == byte_at(cs, k)`.
pub fn char_byte_offsets(cs: &Vec<char>) -> (res: Vec<usize>)
    requires
        byte_len(cs@) <= usize::MAX,
    ensures
        res@.len() == cs@.len() + 1,
        forall|k: int| 0 <= k <= cs@.len() ==> #[trigger] res@[k] == byte_at(cs@, k),
{
    let mut res: Vec<usize> = Vec::new();
    let mut acc: usize = 0;
    proof {
        lemma_byte_at_full(cs@);
    }
    res.push(0);
    let mut i: usize = 0;
    while i < cs.len()
        invariant
            i <= cs@.len(),
            res@.len() == i + 1,
            acc == byte_at(cs@, i as int),
            byte_len(cs@) <= usize::MAX,
            forall|k: int| 0 <= k <= i ==> #[trigger] res@[k] == byte_at(cs@, k),
        decreases cs@.len() - i,
    {
        proof {
            lemma_byte_at_step(cs@, i as int);
            lemma_byte_at_mono(cs@, i + 1, cs@.len() as int);
            lemma_byte_at_full(cs@);
        }
        let w = char_width(cs[i]);
        acc = acc + w;
        res.push(acc);
        i = i + 1;
    }
    res
}

/// The string slice of `s` between character indices `a` and `b`,
/// located by their byte offsets `start` and `end`.
pub fn slice_chars<'a>(s: &'a str, start: usize, end: usize, Ghost(a): Ghost<int>, Ghost(b): Ghost<int>) -> (r: &'a str)
    requires
        0 <= a <= b <= s@.len(),
        start == byte_at(s@, a),
        end == byte_at(s@, b),
    ensures
        r@ == s@.subrange(a, b),
{
    proof {
        lemma_byte_at_is_boundary(s@, b);
        lemma_byte_at_mono(s@, a, b);
    }
    let (head, _tail) = s.split_at(end);
    proof {
        let cs = s@;
        lemma_encode_subrange(cs, 0, b);
        assert(cs.subrange(0, b) =~= cs.take(b));
        assert(cs.take(0) =~= Seq::<char>::empty());
        lemma_encode_injective(head@, cs.take(b));
        lemma_byte_at_is_boundary(head@, a);
        assert(head@.take(a) =~= cs.take(a));
    }
    let (_pre, mid) = head.split_at(start);
    proof {
        let h = head@;
        lemma_encode_subrange(h, a, b);
        lemma_byte_at_full(h);
        assert(h.take(b) =~= h);
        assert(h.take(a) =~= s@.take(a));
        lemma_encode_injective(mid@, h.subrange(a, b));
        assert(h.subrange(a, b) =~= s@.subrange(a, b));
    }
    mid
}

/// The slice of `s` between the byte offsets `a` and `b`, both character
/// boundaries.
pub fn substr_bytes<'a>(s: &'a str, a: usize, b: usize) -> (r: &'a str)
    requires
        a <= b <= s.spec_bytes().len(),
        is_char_boundary(s.spec_bytes(), a as int),
        is_char_boundary(s.spec_bytes(), b as int),
    ensures
        r.spec_bytes() == s.spec_bytes().subrange(a as int, b as int),
{
    proof {
        lemma_byte_at_full(s@);
    }
    let ghost ka = lemma_boundary_is_byte_at(s@, a as int);
    let ghost kb = lemma_boundary_is_byte_at(s@, b as int);
    proof {
        if kb < ka {
            lemma_byte_at_mono(s@, kb + 1, ka);
            lemma_byte_at_mono(s@, kb, kb + 1);
        }
        lemma_encode_subrange(s@, ka, kb);
    }
    slice_chars(s, a, b, Ghost(ka), Ghost(kb))
}

/// Two valid encodings that agree on their first `p` bytes agree on
/// whether `p` is a character boundary.
pub proof fn lemma_shared_prefix_boundary(x: Seq<u8>, y: Seq<u8>, p: int)
    requires
        valid_utf8(x),
        valid_utf8(y),
        0 <= p <= x.len(),
        p <= y.len(),
        x.take(p) == y.take(p),
        is_char_boundary(y, p),
    ensures
        is_char_boundary(x, p),
    decreases p,
{
    if p > 0 {
        assert(x[0] == x.take(p)[0]);
        assert(y[0] == y.take(p)[0]);
        let l = length_of_first_scalar(y);
        assert(length_of_first_scalar(x) == l);
        assert(1 <= l <= 4);
        let px = pop_first_scalar(x);
        let py = pop_first_scalar(y);
        assert(valid_utf8(px));
        assert(valid_utf8(py));
        assert(valid_first_scalar(x));
        assert(valid_first_scalar(y));
        assert(l <= x.len() && l <= y.len());
        assert(px.len() == x.len() - l);
        assert(py.len() == y.len() - l);
        reveal_with_fuel(is_char_boundary, 2);
        assert(p - l >= 0);
        assert(px.take(p - l) =~= py.take(p - l)) by {
            assert forall|i: int| 0 <= i < p - l implies #[trigger] px.take(p - l)[i] == py.take(
                p - l,
            )[i] by {
                assert(px[i] == x[i + l]);
                assert(py[i] == y[i + l]);
                assert(x.take(p)[i + l] == y.take(p)[i + l]);
                assert(x.take(p)[i + l] == x[i + l]);
                assert(y.take(p)[i + l] == y[i + l]);
                assert(px.take(p - l)[i] == px[i]);
                assert(py.take(p - l)[i] == py[i]);
            }
        }
        lemma_shared_prefix_boundary(px, py, p - l);
    }
}

/// The byte after a newline byte starts a character.
pub proof fn lemma_after_newline_boundary(cs: Seq<char>, q: int)
    requires
        0 < q <= byte_len(cs),
        encode_utf8(cs)[q - 1] == 10u8,
    ensures
        is_char_boundary(encode_utf8(cs), q),
{
    let k = lemma_byte_owner(cs, q - 1);
    let j = q - 1 - byte_at(cs, k);
    lemma_byte_at_step(cs, k);
    lemma_newline_byte(cs, k, j);
    lemma_scalar_bytes(cs[k], j);
    lemma_width_bounds(cs[k]);
    lemma_byte_at_is_boundary(cs, k + 1);
}

/// Appends one character to `s`.
#[verifier::external_body]
pub(crate) fn push_char(s: &mut String, c: char)
    ensures
        final(s)@ == old(s)@.push(c),
{
    s.push(c);
}

/// A `String` holding exactly `cs`.
pub fn string_from_chars(cs: &Vec<char>) -> (s: String)
    ensures
        s@ == cs@,
{
    let mut s = String::new();
    let mut i: usize = 0;
    while i < cs.len()
        invariant
            i <= cs@.len(),
            s@ == cs@.take(i as int),
        decreases cs@.len() - i,
    {
        push_char(&mut s, cs[i]);
        i = i + 1;
        assert(s@ =~= cs@.take(i as int));
    }
    assert(cs@.take(cs@.len() as int) =~= cs@);
    s
}

} // verus!
