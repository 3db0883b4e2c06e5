//! Config sandboxing: a whitelist filter that strips dangerous constructs
//! from an untrusted vimrc.
//!
//! Only known-safe lines pass through unchanged: blanks, comments, `:set`
//! lines without a blocked option, `let mapleader`, and non-recursive
//! mappings whose right-hand side holds no shell pattern. Every other line
//! is replaced by a diagnostic comment.

use crate::strs::ascii_lower;
use crate::strs::contains_seq;
use crate::strs::eq_ic;
use crate::strs::eq_ignore_ascii_case;
use crate::strs::is_ascii_whitespace;
use crate::strs::is_ascii_ws;
use crate::strs::is_whitespace;
use crate::strs::lines_of;
use crate::strs::prefix_eq_ignore_ascii_case;
use crate::strs::rspan;
use crate::strs::rspan_start;
use crate::strs::span;
use crate::strs::span_end;
use crate::strs::split_ws;
use crate::strs::starts_with;
use crate::strs::str_contains;
use crate::strs::str_starts_with;
use crate::strs::strip_cr;
use crate::strs::to_ascii_lowercase;
use crate::strs::trim;
use crate::strs::trim_spec;
use crate::strs::trim_start;
use crate::strs::trim_start_spec;
use crate::strs::CharClass;
use crate::text::chars_of;
use crate::text::push_char;
use vstd::prelude::*;
use vstd::string::StrSliceExecFns;
use vstd::string::StringExecFns;
use vstd::string::StringSliceAdditionalSpecFns;
use vstd::utf8::*;

verus! {

broadcast use vstd::seq::group_seq_axioms;

// ───────────────────────── abbreviations ─────────────────────────

/// Vim abbreviation matching on bytes: `name` is a prefix of `full` of at
/// least the length of `min`, ignoring ASCII case.
pub open spec fn abbrev(name: Seq<u8>, min: Seq<u8>, full: Seq<u8>) -> bool {
    min.len() <= name.len() <= full.len() && eq_ic(name, full.take(name.len() as int))
}

/// Recursive map commands: `map`, `nm[ap]`, `vm[ap]`, `im[ap]`, `om[ap]`,
/// `cm[ap]`.
pub open spec fn recursive_map_abbrev(n: Seq<u8>) -> bool {
    ||| eq_ic(n, "map".spec_bytes())
    ||| abbrev(n, "nm".spec_bytes(), "nmap".spec_bytes())
    ||| abbrev(n, "vm".spec_bytes(), "vmap".spec_bytes())
    ||| abbrev(n, "im".spec_bytes(), "imap".spec_bytes())
    ||| abbrev(n, "om".spec_bytes(), "omap".spec_bytes())
    ||| abbrev(n, "cm".spec_bytes(), "cmap".spec_bytes())
}

/// Any map, noremap or unmap command.
pub open spec fn map_or_noremap_abbrev(n: Seq<u8>) -> bool {
    ||| recursive_map_abbrev(n)
    ||| abbrev(n, "no".spec_bytes(), "noremap".spec_bytes())
    ||| abbrev(n, "nn".spec_bytes(), "nnoremap".spec_bytes())
    ||| abbrev(n, "vn".spec_bytes(), "vnoremap".spec_bytes())
    ||| abbrev(n, "ino".spec_bytes(), "inoremap".spec_bytes())
    ||| abbrev(n, "ono".spec_bytes(), "onoremap".spec_bytes())
    ||| abbrev(n, "cno".spec_bytes(), "cnoremap".spec_bytes())
    ||| abbrev(n, "unm".spec_bytes(), "unmap".spec_bytes())
    ||| abbrev(n, "nun".spec_bytes(), "nunmap".spec_bytes())
    ||| abbrev(n, "vu".spec_bytes(), "vunmap".spec_bytes())
    ||| abbrev(n, "iu".spec_bytes(), "iunmap".spec_bytes())
    ||| abbrev(n, "ou".spec_bytes(), "ounmap".spec_bytes())
    ||| abbrev(n, "cu".spec_bytes(), "cunmap".spec_bytes())
}

/// Every byte index of an ASCII string is a character boundary.
pub proof fn lemma_ascii_boundaries(s: &str)
    requires
        is_ascii_chars(s@),
    ensures
        forall|i: int| 0 <= i <= s.spec_bytes().len() ==> #[trigger] is_char_boundary(s.spec_bytes(), i),
{
    let b = s.spec_bytes();
    is_ascii_chars_encode_utf8(s@);
    encode_utf8_valid_utf8(s@);
    is_char_boundary_start_end_of_seq(b);
    assert forall|i: int| 0 <= i <= b.len() implies #[trigger] is_char_boundary(b, i) by {
        if i < b.len() {
            assert(s@[i] as u8 == b[i]);
            is_char_boundary_iff_not_is_continuation_byte(b, i);
        }
    }
}

/// `name` abbreviates `full` (at least as long as `min`), ignoring ASCII case.
pub fn matches_abbrev(name: &str, min: &str, full: &str) -> (r: bool)
    requires
        min.spec_bytes().len() <= name.spec_bytes().len() <= full.spec_bytes().len()
            ==> is_char_boundary(full.spec_bytes(), name.spec_bytes().len() as int),
    ensures
        r == abbrev(name.spec_bytes(), min.spec_bytes(), full.spec_bytes()),
{
    let nb = name.as_bytes();
    let fb = full.as_bytes();
    let n = nb.len();
    if n >= min.as_bytes().len() && n <= fb.len() {
        let r = prefix_eq_ignore_ascii_case(nb, fb, n);
        proof {
            assert(nb@.take(n as int) =~= nb@);
        }
        r
    } else {
        false
    }
}

/// Recursive map commands only: not `noremap` variants, not `unmap`.
pub fn is_recursive_map_abbrev(name: &str) -> (r: bool)
    ensures
        r == recursive_map_abbrev(name.spec_bytes()),
{
    proof {
        reveal_strlit("nmap");
        reveal_strlit("vmap");
        reveal_strlit("imap");
        reveal_strlit("omap");
        reveal_strlit("cmap");
        lemma_ascii_boundaries("nmap");
        lemma_ascii_boundaries("vmap");
        lemma_ascii_boundaries("imap");
        lemma_ascii_boundaries("omap");
        lemma_ascii_boundaries("cmap");
    }
    eq_ignore_ascii_case(name, "map") || matches_abbrev(name, "nm", "nmap") || matches_abbrev(
        name,
        "vm",
        "vmap",
    ) || matches_abbrev(name, "im", "imap") || matches_abbrev(name, "om", "omap")
        || matches_abbrev(name, "cm", "cmap")
}

/// Any map, noremap or unmap abbreviation.
pub fn is_map_or_noremap_abbrev(name: &str) -> (r: bool)
    ensures
        r == map_or_noremap_abbrev(name.spec_bytes()),
{
    if is_recursive_map_abbrev(name) {
        return true;
    }
    proof {
        reveal_strlit("noremap");
        reveal_strlit("nnoremap");
        reveal_strlit("vnoremap");
        reveal_strlit("inoremap");
        reveal_strlit("onoremap");
        reveal_strlit("cnoremap");
        reveal_strlit("unmap");
        reveal_strlit("nunmap");
        reveal_strlit("vunmap");
        reveal_strlit("iunmap");
        reveal_strlit("ounmap");
        reveal_strlit("cunmap");
        lemma_ascii_boundaries("noremap");
        lemma_ascii_boundaries("nnoremap");
        lemma_ascii_boundaries("vnoremap");
        lemma_ascii_boundaries("inoremap");
        lemma_ascii_boundaries("onoremap");
        lemma_ascii_boundaries("cnoremap");
        lemma_ascii_boundaries("unmap");
        lemma_ascii_boundaries("nunmap");
        lemma_ascii_boundaries("vunmap");
        lemma_ascii_boundaries("iunmap");
        lemma_ascii_boundaries("ounmap");
        lemma_ascii_boundaries("cunmap");
    }
    matches_abbrev(name, "no", "noremap") || matches_abbrev(name, "nn", "nnoremap")
        || matches_abbrev(name, "vn", "vnoremap") || matches_abbrev(name, "ino", "inoremap")
        || matches_abbrev(name, "ono", "onoremap") || matches_abbrev(name, "cno", "cnoremap")
        || matches_abbrev(name, "unm", "unmap") || matches_abbrev(name, "nun", "nunmap")
        || matches_abbrev(name, "vu", "vunmap") || matches_abbrev(name, "iu", "iunmap")
        || matches_abbrev(name, "ou", "ounmap") || matches_abbrev(name, "cu", "cunmap")
}

// ───────────────────────── mapping lines ─────────────────────────

/// The first word of `t` when an ASCII whitespace character follows it.
pub open spec fn command_word(t: Seq<char>) -> Option<Seq<char>> {
    let e = span(t, CharClass::NotAsciiWhitespace) as int;
    if e < t.len() {
        Some(t.take(e))
    } else {
        None
    }
}

/// `w` without trailing `!`.
pub open spec fn trim_bangs(w: Seq<char>) -> Seq<char> {
    w.take(w.len() - rspan(w, CharClass::Bang))
}

/// A line whose command word (trailing `!` removed) is a map, noremap or
/// unmap command.
pub open spec fn mapping_line(t: Seq<char>) -> bool {
    match command_word(t) {
        Some(w) => map_or_noremap_abbrev(encode_utf8(trim_bangs(w))),
        None => false,
    }
}

/// A line whose command word (trailing `!` removed) is a recursive map.
pub open spec fn recursive_map_line(t: Seq<char>) -> bool {
    match command_word(t) {
        Some(w) => recursive_map_abbrev(encode_utf8(trim_bangs(w))),
        None => false,
    }
}

/// The command word of `trimmed` with trailing `!` removed, if a whitespace
/// character follows it.
fn command_of(trimmed: &str) -> (r: Option<&str>)
    ensures
        r.is_none() <==> command_word(trimmed@).is_none(),
        r.is_some() ==> r->0@ == trim_bangs(command_word(trimmed@)->0),
{
    let v = chars_of(trimmed);
    let e = span_end(&v, 0, CharClass::NotAsciiWhitespace);
    proof {
        assert(v@.skip(0) =~= trimmed@);
    }
    if e >= v.len() {
        return None;
    }
    let b = rspan_start(&v, e, CharClass::Bang);
    proof {
        assert(v@.take(e as int) =~= trimmed@.take(e as int));
        assert(trimmed@.take(e as int).take(b as int) =~= trimmed@.subrange(0, b as int));
    }
    Some(trimmed.substring_char(0, b))
}

/// Whether `trimmed` is a map, noremap or unmap command line.
pub fn is_mapping_line(trimmed: &str) -> (r: bool)
    ensures
        r == mapping_line(trimmed@),
{
    match command_of(trimmed) {
        Some(cmd) => is_map_or_noremap_abbrev(cmd),
        None => false,
    }
}

/// Whether `trimmed` is a recursive map command line.
pub fn is_recursive_map_line(trimmed: &str) -> (r: bool)
    ensures
        r == recursive_map_line(trimmed@),
{
    match command_of(trimmed) {
        Some(cmd) => is_recursive_map_abbrev(cmd),
        None => false,
    }
}

// ───────────────────────── shell patterns ─────────────────────────

/// Vim functions that run shell commands, evaluate code or touch files.
pub open spec fn function_pattern(l: Seq<char>) -> bool {
    ||| contains_seq(l, "system("@)
    ||| contains_seq(l, "systemlist("@)
    ||| contains_seq(l, "execute("@)
    ||| contains_seq(l, "feedkeys("@)
    ||| contains_seq(l, "timer_start("@)
    ||| contains_seq(l, "call("@)
    ||| contains_seq(l, "readfile("@)
    ||| contains_seq(l, "writefile("@)
    ||| contains_seq(l, "glob("@)
    ||| contains_seq(l, "delete("@)
    ||| contains_seq(l, "rename("@)
    ||| contains_seq(l, "mkdir("@)
    ||| contains_seq(l, "shellescape("@)
    ||| contains_seq(l, "getfperm("@)
    ||| contains_seq(l, "getftype("@)
    ||| contains_seq(l, "getfsize("@)
    ||| contains_seq(l, "exepath("@)
    ||| contains_seq(l, "eval("@)
}

fn has_function_pattern(l: &str) -> (r: bool)
    ensures
        r == function_pattern(l@),
{
    str_contains(l, "system(") || str_contains(l, "systemlist(") || str_contains(l, "execute(")
        || str_contains(l, "feedkeys(") || str_contains(l, "timer_start(") || str_contains(
        l,
        "call(",
    ) || str_contains(l, "readfile(") || str_contains(l, "writefile(") || str_contains(
        l,
        "glob(",
    ) || str_contains(l, "delete(") || str_contains(l, "rename(") || str_contains(l, "mkdir(")
        || str_contains(l, "shellescape(") || str_contains(l, "getfperm(") || str_contains(
        l,
        "getftype(",
    ) || str_contains(l, "getfsize(") || str_contains(l, "exepath(") || str_contains(l, "eval(")
}

/// An ex command `full` (abbreviated to at least `min`) followed by
/// `suffix` starts `t`, with the command's length `len`.
pub open spec fn ex_pattern_at(t: Seq<u8>, full: Seq<u8>, suffix: Seq<u8>, len: int) -> bool {
    &&& 0 <= len
    &&& len + suffix.len() <= t.len()
    &&& is_char_boundary(t, len)
    &&& eq_ic(t.take(len), full.take(len))
    &&& t.subrange(len, len + suffix.len()) == suffix
}

/// Some abbreviation of `full` of at least the length of `min`, followed
/// by `suffix`, starts `t` (ASCII case ignored in the command).
pub open spec fn ex_pattern(t: Seq<u8>, min: Seq<u8>, full: Seq<u8>, suffix: Seq<u8>) -> bool {
    exists|len: int| min.len() <= len <= full.len() && #[trigger] ex_pattern_at(t, full, suffix, len)
}

/// Whether `p` occurs in `a` at `i`.
fn bytes_occur_at(a: &[u8], i: usize, p: &[u8]) -> (r: bool)
    requires
        i <= a@.len(),
    ensures
        r == (i + p@.len() <= a@.len() && a@.subrange(i as int, i + p@.len()) == p@),
{
    if p.len() > a.len() - i {
        return false;
    }
    let mut j: usize = 0;
    while j < p.len()
        invariant
            j <= p@.len(),
            i + p@.len() <= a@.len(),
            a@.len() <= usize::MAX,
            forall|q: int| 0 <= q < j ==> a@[i + q] == #[trigger] p@[q],
        decreases p@.len() - j,
    {
        if a[i + j] != p[j] {
            proof {
                assert(a@.subrange(i as int, i + p@.len())[j as int] != p@[j as int]);
            }
            return false;
        }
        j = j + 1;
    }
    proof {
        assert(a@.subrange(i as int, i + p@.len()) =~= p@);
    }
    true
}

/// Whether `text` starts with an abbreviation of `full` (at least as long
/// as `min`, ASCII case ignored) followed by `suffix`.
pub fn matches_ex_pattern(text: &str, min: &str, full: &str, suffix: &str) -> (r: bool)
    requires
        forall|len: int|
            min.spec_bytes().len() <= len <= full.spec_bytes().len() ==> #[trigger] is_char_boundary(
                full.spec_bytes(),
                len,
            ),
    ensures
        r == ex_pattern(text.spec_bytes(), min.spec_bytes(), full.spec_bytes(), suffix.spec_bytes()),
{
    let tb = text.as_bytes();
    let fb = full.as_bytes();
    let sb = suffix.as_bytes();
    let ghost t = text.spec_bytes();
    let ghost f = full.spec_bytes();
    let ghost s = suffix.spec_bytes();
    let mut len = min.as_bytes().len();
    if len > fb.len() {
        return false;
    }
    loop
        invariant
            t == text.spec_bytes(),
            f == full.spec_bytes(),
            s == suffix.spec_bytes(),
            tb@ == t,
            fb@ == f,
            sb@ == s,
            min.spec_bytes().len() <= len <= f.len(),
            forall|q: int| min.spec_bytes().len() <= q < len ==> !#[trigger] ex_pattern_at(t, f, s, q),
        decreases f.len() - len,
    {
        if len <= tb.len() && sb.len() <= tb.len() - len && text.is_char_boundary(len)
            && prefix_eq_ignore_ascii_case(tb, fb, len) && bytes_occur_at(tb, len, sb) {
            proof {
                assert(ex_pattern_at(t, f, s, len as int));
            }
            return true;
        }
        if len == fb.len() {
            proof {
                assert forall|q: int| min.spec_bytes().len() <= q <= f.len() implies !#[trigger] ex_pattern_at(
                    t,
                    f,
                    s,
                    q,
                ) by {
                    if q == len {
                    }
                }
            }
            return false;
        }
        len = len + 1;
    }
}

/// Characters allowed in an ex range before the command.
pub open spec fn after_range(t: Seq<char>) -> Seq<char> {
    t.skip(span(t, CharClass::RangeChar) as int)
}

/// The ex command after the `:` at `i` (range skipped) is `:!`, an
/// abbreviation of `:read !`, or an abbreviation of `:source `.
pub open spec fn ex_command_at(l: Seq<char>, i: int) -> bool {
    let t = encode_utf8(after_range(l.skip(i + 1)));
    ||| ex_pattern(t, "!".spec_bytes(), "!".spec_bytes(), "".spec_bytes())
    ||| ex_pattern(t, "r".spec_bytes(), "read".spec_bytes(), " !".spec_bytes())
    ||| ex_pattern(t, "so".spec_bytes(), "source".spec_bytes(), " ".spec_bytes())
}

/// A dangerous function name, or a `:` starting a dangerous ex command.
pub open spec fn shell_pattern(l: Seq<char>) -> bool {
    ||| function_pattern(l)
    ||| exists|i: int| 0 <= i < l.len() && l[i] == ':' && #[trigger] ex_command_at(l, i)
}

/// Whether `line` holds a dangerous function name or ex command.
pub fn contains_shell_pattern(line: &str) -> (r: bool)
    ensures
        r == shell_pattern(line@),
{
    if has_function_pattern(line) {
        return true;
    }
    proof {
        reveal_strlit("!");
        reveal_strlit("read");
        reveal_strlit("source");
        lemma_ascii_boundaries("!");
        lemma_ascii_boundaries("read");
        lemma_ascii_boundaries("source");
    }
    let v = chars_of(line);
    let n = v.len();
    let mut i: usize = 0;
    while i < n
        invariant
            v@ == line@,
            n == v@.len(),
            i <= n,
            !function_pattern(line@),
            forall|q: int| 0 <= q < i && line@[q] == ':' ==> !#[trigger] ex_command_at(line@, q),
            forall|len: int| 0 <= len <= "!".spec_bytes().len() ==> #[trigger] is_char_boundary("!".spec_bytes(), len),
            forall|len: int| 0 <= len <= "read".spec_bytes().len() ==> #[trigger] is_char_boundary("read".spec_bytes(), len),
            forall|len: int| 0 <= len <= "source".spec_bytes().len() ==> #[trigger] is_char_boundary("source".spec_bytes(), len),
        decreases n - i,
    {
        if v[i] == ':' {
            let e = span_end(&v, i + 1, CharClass::RangeChar);
            let t = line.substring_char(e, n);
            proof {
                let u = line@.skip(i + 1);
                assert(v@.skip(i + 1) == u);
                assert(u.skip(span(u, CharClass::RangeChar) as int) =~= line@.subrange(e as int, n as int));
            }
            if matches_ex_pattern(t, "!", "!", "") || matches_ex_pattern(t, "r", "read", " !")
                || matches_ex_pattern(t, "so", "source", " ") {
                proof {
                    assert(ex_command_at(line@, i as int));
                }
                return true;
            }
        }
        i = i + 1;
    }
    false
}

// ───────────────────────── safe non-mapping lines ─────────────────────────

/// Option name of a `:set` token: up to the first of `= ? ! + - :`, with a
/// leading `no` removed.
pub open spec fn option_name(tok: Seq<char>) -> Seq<char> {
    let name = tok.take(span(tok, CharClass::NotOptionDelimiter) as int);
    if starts_with(name, "no"@) {
        name.skip("no"@.len() as int)
    } else {
        name
    }
}

/// Options that run shell commands or leak data, long and short names.
pub open spec fn blocked_option(name: Seq<char>) -> bool {
    let n = encode_utf8(name);
    ||| eq_ic(n, "shell".spec_bytes())
    ||| eq_ic(n, "sh".spec_bytes())
    ||| eq_ic(n, "shellcmdflag".spec_bytes())
    ||| eq_ic(n, "shcf".spec_bytes())
    ||| eq_ic(n, "shellpipe".spec_bytes())
    ||| eq_ic(n, "sp".spec_bytes())
    ||| eq_ic(n, "shellredir".spec_bytes())
    ||| eq_ic(n, "srr".spec_bytes())
    ||| eq_ic(n, "shellquote".spec_bytes())
    ||| eq_ic(n, "shq".spec_bytes())
    ||| eq_ic(n, "shellxquote".spec_bytes())
    ||| eq_ic(n, "sxq".spec_bytes())
    ||| eq_ic(n, "shellxescape".spec_bytes())
    ||| eq_ic(n, "sxe".spec_bytes())
    ||| eq_ic(n, "makeprg".spec_bytes())
    ||| eq_ic(n, "mp".spec_bytes())
    ||| eq_ic(n, "grepprg".spec_bytes())
    ||| eq_ic(n, "gp".spec_bytes())
    ||| eq_ic(n, "equalprg".spec_bytes())
    ||| eq_ic(n, "ep".spec_bytes())
    ||| eq_ic(n, "formatprg".spec_bytes())
    ||| eq_ic(n, "fp".spec_bytes())
    ||| eq_ic(n, "keywordprg".spec_bytes())
    ||| eq_ic(n, "kp".spec_bytes())
}

/// Some whitespace-separated token of `opts` names a blocked option.
pub open spec fn any_blocked(opts: Seq<char>) -> bool {
    exists|k: int| 0 <= k < split_ws(opts).len() && #[trigger] blocked_option(option_name(split_ws(opts)[k]))
}

/// After `let `, the variable is exactly `g:mapleader` or `mapleader`.
pub open spec fn mapleader_assign(a: Seq<char>) -> bool {
    if starts_with(a, "g:mapleader"@) {
        name_ends_here(a.skip("g:mapleader"@.len() as int))
    } else if starts_with(a, "mapleader"@) {
        name_ends_here(a.skip("mapleader"@.len() as int))
    } else {
        false
    }
}

/// Nothing, ASCII whitespace or `=` follows a variable name.
pub open spec fn name_ends_here(rest: Seq<char>) -> bool {
    rest.len() == 0 || is_ascii_ws(rest[0]) || rest[0] == '='
}

/// Blank, comment, `:set` without a blocked option, or `let mapleader`.
pub open spec fn safe_non_mapping(t: Seq<char>) -> bool {
    if t.len() == 0 {
        true
    } else if t[0] == '"' {
        true
    } else {
        let lo = ascii_lower(t);
        if starts_with(lo, "set "@) {
            !any_blocked(lo.skip("set "@.len() as int))
        } else if starts_with(lo, "se "@) {
            !any_blocked(lo.skip("se "@.len() as int))
        } else if starts_with(t, "let "@) {
            mapleader_assign(trim_start_spec(t.skip("let "@.len() as int)))
        } else {
            false
        }
    }
}

/// The option name of a `:set` token: value delimiters and a `no` prefix
/// removed (`noshell` gives `shell`).
pub fn extract_option_name_from_token(token: &str) -> (r: &str)
    ensures
        r@ == option_name(token@),
{
    let v = chars_of(token);
    let e = span_end(&v, 0, CharClass::NotOptionDelimiter);
    proof {
        assert(v@.skip(0) =~= token@);
    }
    let name = token.substring_char(0, e);
    if str_starts_with(name, "no") {
        let k = "no".unicode_len();
        let total = name.unicode_len();
        proof {
            assert(name@.skip(k as int) =~= name@.subrange(k as int, total as int));
        }
        name.substring_char(k, total)
    } else {
        name
    }
}

/// Whether `name` is a blocked option (ASCII case ignored).
fn is_blocked_option(name: &str) -> (r: bool)
    ensures
        r == blocked_option(name@),
{
    eq_ignore_ascii_case(name, "shell") || eq_ignore_ascii_case(name, "sh")
        || eq_ignore_ascii_case(name, "shellcmdflag") || eq_ignore_ascii_case(name, "shcf")
        || eq_ignore_ascii_case(name, "shellpipe") || eq_ignore_ascii_case(name, "sp")
        || eq_ignore_ascii_case(name, "shellredir") || eq_ignore_ascii_case(name, "srr")
        || eq_ignore_ascii_case(name, "shellquote") || eq_ignore_ascii_case(name, "shq")
        || eq_ignore_ascii_case(name, "shellxquote") || eq_ignore_ascii_case(name, "sxq")
        || eq_ignore_ascii_case(name, "shellxescape") || eq_ignore_ascii_case(name, "sxe")
        || eq_ignore_ascii_case(name, "makeprg") || eq_ignore_ascii_case(name, "mp")
        || eq_ignore_ascii_case(name, "grepprg") || eq_ignore_ascii_case(name, "gp")
        || eq_ignore_ascii_case(name, "equalprg") || eq_ignore_ascii_case(name, "ep")
        || eq_ignore_ascii_case(name, "formatprg") || eq_ignore_ascii_case(name, "fp")
        || eq_ignore_ascii_case(name, "keywordprg") || eq_ignore_ascii_case(name, "kp")
}

/// Whether some whitespace-separated token of `opts` names a blocked option.
fn has_blocked_option(opts: &str) -> (r: bool)
    ensures
        r == any_blocked(opts@),
{
    let v = chars_of(opts);
    let n = v.len();
    let mut pos: usize = 0;
    let ghost mut toks: Seq<Seq<char>> = seq![];
    proof {
        assert(opts@.skip(0) =~= opts@);
    }
    while pos < n
        invariant
            v@ == opts@,
            n == v@.len(),
            pos <= n,
            split_ws(opts@) == toks + split_ws(opts@.skip(pos as int)),
            forall|k: int| 0 <= k < toks.len() ==> !#[trigger] blocked_option(option_name(toks[k])),
        decreases n - pos,
    {
        let ghost u = opts@.skip(pos as int);
        if is_whitespace(v[pos]) {
            proof {
                assert(u[0] == v@[pos as int]);
                assert(u.drop_first() =~= opts@.skip(pos + 1));
            }
            pos = pos + 1;
        } else {
            let e = span_end(&v, pos, CharClass::NotWhitespace);
            let tok = opts.substring_char(pos, e);
            let name = extract_option_name_from_token(tok);
            proof {
                assert(u[0] == v@[pos as int]);
                assert(v@.skip(pos as int) == u);
                assert(u.take(e - pos) =~= tok@);
                assert(u.skip(e - pos) =~= opts@.skip(e as int));
                assert(split_ws(u) == seq![tok@] + split_ws(opts@.skip(e as int)));
                assert(split_ws(opts@) =~= toks.push(tok@) + split_ws(opts@.skip(e as int)));
            }
            if is_blocked_option(name) {
                proof {
                    let k = toks.len() as int;
                    assert(split_ws(opts@)[k] == tok@);
                }
                return true;
            }
            proof {
                toks = toks.push(tok@);
            }
            pos = e;
        }
    }
    proof {
        assert(opts@.skip(n as int) =~= Seq::<char>::empty());
        assert(split_ws(opts@) =~= toks);
    }
    false
}

/// Whether `after_let` assigns exactly `g:mapleader` or `mapleader`.
fn is_mapleader_assignment(after_let: &str) -> (r: bool)
    ensures
        r == mapleader_assign(after_let@),
{
    let v = chars_of(after_let);
    let k = if str_starts_with(after_let, "g:mapleader") {
        "g:mapleader".unicode_len()
    } else if str_starts_with(after_let, "mapleader") {
        "mapleader".unicode_len()
    } else {
        return false;
    };
    proof {
        let rest = after_let@.skip(k as int);
        if k < v@.len() {
            assert(rest[0] == v@[k as int]);
        }
    }
    k == v.len() || is_ascii_whitespace(v[k]) || v[k] == '='
}

/// Whitelist check for non-mapping lines that may pass through.
pub fn is_safe_non_mapping_line(trimmed: &str) -> (r: bool)
    ensures
        r == safe_non_mapping(trimmed@),
{
    let v = chars_of(trimmed);
    if v.len() == 0 {
        return true;
    }
    if v[0] == '"' {
        return true;
    }
    let lower = to_ascii_lowercase(trimmed);
    let lo = lower.as_str();
    let total = lo.unicode_len();
    if str_starts_with(lo, "set ") {
        let k = "set ".unicode_len();
        let opts = lo.substring_char(k, total);
        proof {
            assert(lo@.skip(k as int) =~= opts@);
        }
        return !has_blocked_option(opts);
    }
    if str_starts_with(lo, "se ") {
        let k = "se ".unicode_len();
        let opts = lo.substring_char(k, total);
        proof {
            assert(lo@.skip(k as int) =~= opts@);
        }
        return !has_blocked_option(opts);
    }
    if str_starts_with(trimmed, "let ") {
        let k = "let ".unicode_len();
        let rest = trimmed.substring_char(k, v.len());
        proof {
            assert(trimmed@.skip(k as int) =~= rest@);
        }
        let after = trim_start(rest);
        return is_mapleader_assignment(after);
    }
    false
}

// ───────────────────────── whole text ─────────────────────────

/// Replacement for a recursive map line.
pub open spec fn recursive_notice() -> Seq<char> {
    "\" [sandbox] stripped recursive map (use noremap in project vimrc): "@
}

/// Replacement for any other stripped line.
pub open spec fn stripped_notice() -> Seq<char> {
    "\" [sandbox] stripped: "@
}

/// What the sandbox emits for one input line.
pub open spec fn sandbox_line(line: Seq<char>) -> Seq<char> {
    let t = trim_spec(line);
    if safe_non_mapping(t) {
        line.push('\n')
    } else if mapping_line(t) {
        if recursive_map_line(t) {
            recursive_notice() + t.push('\n')
        } else if shell_pattern(t) {
            stripped_notice() + t.push('\n')
        } else {
            line.push('\n')
        }
    } else {
        stripped_notice() + t.push('\n')
    }
}

/// The sandboxed form of each line.
pub open spec fn sandbox_lines(ls: Seq<Seq<char>>) -> Seq<Seq<char>> {
    ls.map_values(|l: Seq<char>| sandbox_line(l))
}

/// The sandboxed text: each line of `s` replaced by its sandboxed form.
pub open spec fn sandbox_text(s: Seq<char>) -> Seq<char> {
    sandbox_lines(lines_of(s)).flatten()
}

/// The sandboxed text starts with the first line's replacement.
proof fn lemma_sandbox_text_step(s: Seq<char>)
    requires
        s.len() > 0,
    ensures
        ({
            let e = span(s, CharClass::NotNewline) as int;
            if e >= s.len() {
                sandbox_text(s) == sandbox_line(s)
            } else {
                sandbox_text(s) == sandbox_line(strip_cr(s.take(e))) + sandbox_text(s.skip(e + 1))
            }
        }),
{
    let e = span(s, CharClass::NotNewline) as int;
    let ls = lines_of(s);
    let m = sandbox_lines(ls);
    if e >= s.len() {
        assert(m.drop_first() =~= Seq::<Seq<char>>::empty());
        assert(m.drop_first().flatten() =~= Seq::<char>::empty());
        assert(m.first() + Seq::<char>::empty() =~= m.first());
    } else {
        assert(m.drop_first() =~= sandbox_lines(lines_of(s.skip(e + 1))));
    }
}

/// No line break (`\n` or `\r`) in `o`.
pub open spec fn no_break(o: Seq<char>) -> bool {
    forall|i: int| 0 <= i < o.len() ==> #[trigger] o[i] != '\n' && o[i] != '\r'
}

/// The line the sandbox emits for `line`, without its `\n`.
pub open spec fn sandbox_out(line: Seq<char>) -> Seq<char> {
    let t = trim_spec(line);
    if safe_non_mapping(t) {
        line
    } else if mapping_line(t) {
        if recursive_map_line(t) {
            recursive_notice() + t
        } else if shell_pattern(t) {
            stripped_notice() + t
        } else {
            line
        }
    } else {
        stripped_notice() + t
    }
}

/// A stripped line's replacement is a comment, which the sandbox keeps.
proof fn lemma_notice_kept(n: Seq<char>, line: Seq<char>)
    requires
        n.len() > 0,
        n[0] == '"',
        no_break(n),
        no_break(line),
        trim_spec(line).len() > 0,
    ensures
        no_break(n + trim_spec(line)),
        sandbox_line(n + trim_spec(line)) == (n + trim_spec(line)).push('\n'),
{
    let ts = trim_start_spec(line);
    let t = trim_spec(line);
    let o = n + t;
    crate::strs::lemma_span(line, CharClass::Whitespace);
    crate::strs::lemma_rspan(ts, CharClass::Whitespace);
    let a = span(line, CharClass::Whitespace) as int;
    assert forall|i: int| 0 <= i < t.len() implies #[trigger] t[i] == line[i + a] by {}
    assert forall|i: int| 0 <= i < o.len() implies #[trigger] o[i] != '\n' && o[i] != '\r' by {
        if i >= n.len() {
            assert(o[i] == t[i - n.len()]);
            assert(t[i - n.len()] == line[i - n.len() + a]);
        }
    }
    assert(o[0] == '"');
    crate::strs::lemma_span_unique(o, CharClass::Whitespace, 0);
    assert(trim_start_spec(o) =~= o);
    assert(o[o.len() - 1] == t[t.len() - 1]);
    assert(t[t.len() - 1] == ts[ts.len() - 1 - rspan(ts, CharClass::Whitespace)]);
    crate::strs::lemma_rspan_unique(o, CharClass::Whitespace, 0);
    assert(trim_spec(o) =~= o);
    assert(safe_non_mapping(o));
}

/// The sandbox emits one line, without breaks, for a line without breaks,
/// and emits that line again unchanged.
proof fn lemma_sandbox_out(line: Seq<char>)
    requires
        no_break(line),
    ensures
        sandbox_line(line) == sandbox_out(line).push('\n'),
        no_break(sandbox_out(line)),
        sandbox_line(sandbox_out(line)) == sandbox_out(line).push('\n'),
{
    let t = trim_spec(line);
    reveal_strlit("\" [sandbox] stripped recursive map (use noremap in project vimrc): ");
    reveal_strlit("\" [sandbox] stripped: ");
    let rn = recursive_notice();
    let sn = stripped_notice();
    assert(rn[0] == '"');
    assert(sn[0] == '"');
    assert(no_break(rn));
    assert(no_break(sn));
    assert((rn + t).push('\n') =~= rn + t.push('\n'));
    assert((sn + t).push('\n') =~= sn + t.push('\n'));
    if !safe_non_mapping(t) {
        assert(t.len() > 0);
        if mapping_line(t) && recursive_map_line(t) {
            lemma_notice_kept(rn, line);
        } else if mapping_line(t) && !shell_pattern(t) {
        } else {
            lemma_notice_kept(sn, line);
        }
    }
}

/// The first line of `o` and a `\n` before `r` is `o`, and `r` follows it.
proof fn lemma_first_line(o: Seq<char>, r: Seq<char>)
    requires
        no_break(o),
    ensures
        span(o.push('\n') + r, CharClass::NotNewline) == o.len(),
        strip_cr((o.push('\n') + r).take(o.len() as int)) == o,
        (o.push('\n') + r).skip(o.len() + 1int) == r,
{
    let x = o.push('\n') + r;
    assert forall|i: int| 0 <= i < o.len() implies crate::strs::in_class(#[trigger] x[i], CharClass::NotNewline) by {
        assert(x[i] == o[i]);
    }
    crate::strs::lemma_span_unique(x, CharClass::NotNewline, o.len() as int);
    assert(x.take(o.len() as int) =~= o);
    assert(x.skip(o.len() + 1int) =~= r);
}

/// Sandboxing is idempotent: the sandboxed form of a sandboxed text (with
/// no `\r` in it) is that text.
pub proof fn lemma_sandbox_idempotent(s: Seq<char>)
    requires
        forall|i: int| 0 <= i < s.len() ==> #[trigger] s[i] != '\r',
    ensures
        sandbox_text(sandbox_text(s)) == sandbox_text(s),
    decreases s.len(),
{
    if s.len() == 0 {
        assert(lines_of(s) =~= Seq::<Seq<char>>::empty());
        assert(sandbox_lines(lines_of(s)) =~= Seq::<Seq<char>>::empty());
        assert(sandbox_text(s) =~= Seq::<char>::empty());
    } else {
        let e = span(s, CharClass::NotNewline) as int;
        crate::strs::lemma_span(s, CharClass::NotNewline);
        lemma_sandbox_text_step(s);
        let body = if e >= s.len() { s } else { s.take(e) };
        assert forall|i: int| 0 <= i < body.len() implies #[trigger] body[i] != '\n' && body[i] != '\r' by {
            assert(body[i] == s[i]);
        }
        assert(strip_cr(body) == body);
        lemma_sandbox_out(body);
        let o = sandbox_out(body);
        let empty = Seq::<char>::empty();
        if e >= s.len() {
            assert(sandbox_text(s) == o.push('\n'));
            assert(o.push('\n') + empty =~= o.push('\n'));
            lemma_first_line(o, empty);
            lemma_sandbox_text_step(o.push('\n'));
            assert(lines_of(empty) =~= Seq::<Seq<char>>::empty());
            assert(sandbox_lines(lines_of(empty)) =~= Seq::<Seq<char>>::empty());
            assert(sandbox_text(empty) =~= empty);
            assert(sandbox_line(o) + empty =~= sandbox_line(o));
        } else {
            let rest = s.skip(e + 1);
            assert forall|i: int| 0 <= i < rest.len() implies #[trigger] rest[i] != '\r' by {
                assert(rest[i] == s[i + e + 1]);
            }
            lemma_sandbox_idempotent(rest);
            let r = sandbox_text(rest);
            assert(sandbox_text(s) == o.push('\n') + r);
            lemma_first_line(o, r);
            lemma_sandbox_text_step(o.push('\n') + r);
        }
    }
}

/// Append the sandboxed form of `line` to `out`.
fn sandbox_line_into(out: &mut String, line: &str)
    ensures
        final(out)@ == old(out)@ + sandbox_line(line@),
{
    let t = trim(line);
    if is_safe_non_mapping_line(t) {
        out.append(line);
        push_char(out, '\n');
    } else if is_mapping_line(t) {
        if is_recursive_map_line(t) {
            out.append("\" [sandbox] stripped recursive map (use noremap in project vimrc): ");
            out.append(t);
            push_char(out, '\n');
        } else if contains_shell_pattern(t) {
            out.append("\" [sandbox] stripped: ");
            out.append(t);
            push_char(out, '\n');
        } else {
            out.append(line);
            push_char(out, '\n');
        }
    } else {
        out.append("\" [sandbox] stripped: ");
        out.append(t);
        push_char(out, '\n');
    }
}

/// Filter an untrusted vimrc: safe lines pass through, every other line
/// becomes a diagnostic comment. Each output line ends with `\n`.
pub fn sandbox_config_text(text: &str) -> (r: String)
    ensures
        r@ == sandbox_text(text@),
{
    let v = chars_of(text);
    let n = v.len();
    let mut out = String::new();
    let mut pos: usize = 0;
    proof {
        assert(text@.skip(0) =~= text@);
    }
    while pos < n
        invariant
            v@ == text@,
            n == v@.len(),
            pos <= n,
            out@ + sandbox_text(text@.skip(pos as int)) == sandbox_text(text@),
        decreases n - pos,
    {
        let ghost s = text@.skip(pos as int);
        let e = span_end(&v, pos, CharClass::NotNewline);
        let line_end = if e < n && e > pos && v[e - 1] == '\r' {
            e - 1
        } else {
            e
        };
        let line = text.substring_char(pos, line_end);
        proof {
            assert(v@.skip(pos as int) == s);
            lemma_sandbox_text_step(s);
            let er = e - pos;
            if e < n {
                assert(s.take(er) =~= text@.subrange(pos as int, e as int));
                if er > 0 {
                    assert(s.take(er).last() == v@[e - 1]);
                }
                assert(strip_cr(s.take(er)) =~= line@);
                assert(s.skip(er + 1) =~= text@.skip(e + 1));
            } else {
                assert(s =~= line@);
            }
        }
        sandbox_line_into(&mut out, line);
        proof {
            if e < n {
                assert(out@ + sandbox_text(text@.skip(e + 1)) =~= sandbox_text(text@));
            } else {
                assert(text@.skip(n as int) =~= Seq::<char>::empty());
                assert(lines_of(Seq::<char>::empty()) =~= Seq::<Seq<char>>::empty());
                assert(sandbox_text(text@.skip(n as int)) =~= Seq::<char>::empty());
            }
        }
        pos = if e < n {
            e + 1
        } else {
            n
        };
    }
    proof {
        assert(text@.skip(n as int) =~= Seq::<char>::empty());
        assert(sandbox_text(text@.skip(n as int)) =~= Seq::<char>::empty());
    }
    out
}

/// How a project-level vimrc is treated.
#[derive(Clone, Copy, Debug, PartialEq, Eq, Structural)]
pub enum ProjectVimrc {
    Disabled,
    Sandbox,
    Trusted,
}

/// The vimrc policy: a user-level vimrc loads unchanged; a project-level
/// one is blocked (`Disabled`), sandboxed, or loaded unchanged (`Trusted`).
pub fn apply_vimrc_policy(text: &str, is_project_level: bool, policy: ProjectVimrc) -> (r:
    Option<String>)
    ensures
        !is_project_level ==> r.is_some() && r->0@ == text@,
        is_project_level && policy == ProjectVimrc::Disabled ==> r.is_none(),
        is_project_level && policy == ProjectVimrc::Sandbox ==> r.is_some() && r->0@
            == sandbox_text(text@),
        is_project_level && policy == ProjectVimrc::Trusted ==> r.is_some() && r->0@ == text@,
{
    if !is_project_level {
        return Some(text.to_owned());
    }
    match policy {
        ProjectVimrc::Disabled => None,
        ProjectVimrc::Sandbox => Some(sandbox_config_text(text)),
        ProjectVimrc::Trusted => Some(text.to_owned()),
    }
}

} // verus!
