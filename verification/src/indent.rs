//! Indentation for a new line opened below an existing one (`o`, Enter):
//! the line's leading blanks, one level deeper after a line that ends with
//! an opener (`:`, `{`, `(`, `[`) outside a string.

use crate::codec::sat_i32;
use crate::strs::rspan;
use crate::strs::rspan_start;
use crate::strs::trim_end_spec;
use crate::strs::CharClass;
use crate::text::chars_of;
use crate::text::push_char;
use vstd::prelude::*;
use vstd::string::StringExecFns;

verus! {

/// Number of leading spaces and tabs of `s`.
pub open spec fn leading_blanks(s: Seq<char>) -> nat
    decreases s.len(),
{
    if s.len() == 0 || !(s[0] == ' ' || s[0] == '\t') {
        0
    } else {
        1 + leading_blanks(s.drop_first())
    }
}

proof fn lemma_leading_blanks_step(s: Seq<char>, i: int)
    requires
        0 <= i < s.len(),
        forall|j: int| 0 <= j < i ==> (s[j] == ' ' || s[j] == '\t'),
    ensures
        (s[i] == ' ' || s[i] == '\t') ==> leading_blanks(s) >= i + 1,
        !(s[i] == ' ' || s[i] == '\t') ==> leading_blanks(s) == i,
    decreases i,
{
    if i > 0 {
        let t = s.drop_first();
        assert forall|j: int| 0 <= j < i - 1 implies (t[j] == ' ' || t[j] == '\t') by {
            assert(t[j] == s[j + 1]);
        }
        lemma_leading_blanks_step(t, i - 1);
    }
}

proof fn lemma_leading_blanks_all(s: Seq<char>)
    requires
        forall|j: int| 0 <= j < s.len() ==> (s[j] == ' ' || s[j] == '\t'),
    ensures
        leading_blanks(s) == s.len(),
    decreases s.len(),
{
    if s.len() > 0 {
        let t = s.drop_first();
        assert forall|j: int| 0 <= j < t.len() implies (t[j] == ' ' || t[j] == '\t') by {
            assert(t[j] == s[j + 1]);
        }
        lemma_leading_blanks_all(t);
    }
}

/// Whether `c` opens a block that the next line indents under.
pub open spec fn is_opener(c: char) -> bool {
    c == ':' || c == '{' || c == '(' || c == '['
}

/// The column of the line's last non-blank character, to ask whether it is
/// inside a string, when the line (without trailing whitespace) ends with
/// an opener; `None` when it does not.
pub open spec fn opener_query_spec(line: Seq<char>) -> Option<i32> {
    let t = trim_end_spec(line);
    if t.len() > 0 && is_opener(t.last()) {
        Some(sat_i32(t.len() - 1))
    } else {
        None
    }
}

fn trimmed_len(v: &Vec<char>) -> (n: usize)
    ensures
        n == trim_end_spec(v@).len(),
        n == v@.len() - rspan(v@, CharClass::Whitespace),
        n <= v@.len(),
{
    let n = rspan_start(v, v.len(), CharClass::Whitespace);
    proof {
        assert(v@.take(v@.len() as int) =~= v@);
        crate::strs::lemma_rspan(v@, CharClass::Whitespace);
    }
    n
}

/// Where to ask the editor whether the line's opener is inside a string.
pub fn opener_query_column(line_text: &str) -> (r: Option<i32>)
    ensures
        r == opener_query_spec(line_text@),
{
    let v = chars_of(line_text);
    let n = trimmed_len(&v);
    if n > 0 {
        let c = v[n - 1];
        proof {
            crate::strs::lemma_rspan(v@, CharClass::Whitespace);
            assert(trim_end_spec(v@) =~= v@.take(n as int));
            assert(trim_end_spec(v@).last() == v@[n - 1]);
        }
        if c == ':' || c == '{' || c == '(' || c == '[' {
            return Some(crate::codec::usize_to_i32(n - 1));
        }
    }
    None
}

/// `n` spaces.
pub open spec fn spaces(n: nat) -> Seq<char> {
    Seq::new(n, |i: int| ' ')
}

/// The new line's indentation: the line's leading blanks, plus one level
/// (`indent_size` spaces, or a tab) when the line ends with an opener that
/// is not inside a string. `opener_in_string` is the editor's answer at
/// [`opener_query_column`] (ignored when there is no opener).
pub open spec fn new_line_indent_spec(line: Seq<char>, opener_in_string: bool, use_spaces: bool, indent_size: nat) -> Seq<char> {
    let base = line.take(leading_blanks(line) as int);
    if opener_query_spec(line) is Some && !opener_in_string {
        if use_spaces {
            base + spaces(indent_size)
        } else {
            base + seq!['\t']
        }
    } else {
        base
    }
}

pub fn new_line_indent(line_text: &str, opener_in_string: bool, use_spaces: bool, indent_size: usize) -> (r: String)
    ensures
        r@ == new_line_indent_spec(line_text@, opener_in_string, use_spaces, indent_size as nat),
{
    let v = chars_of(line_text);
    let mut out = String::new();
    let mut i: usize = 0;
    while i < v.len() && (v[i] == ' ' || v[i] == '\t')
        invariant
            v@ == line_text@,
            i <= v@.len(),
            forall|j: int| 0 <= j < i ==> (v@[j] == ' ' || v@[j] == '\t'),
            out@ == v@.take(i as int),
        decreases v@.len() - i,
    {
        push_char(&mut out, v[i]);
        proof {
            assert(v@.take(i as int).push(v@[i as int]) =~= v@.take(i + 1));
        }
        i = i + 1;
    }
    proof {
        if i < v@.len() {
            lemma_leading_blanks_step(v@, i as int);
        } else {
            lemma_leading_blanks_all(v@);
        }
    }
    let opener = opener_query_column(line_text);
    if opener.is_some() && !opener_in_string {
        if use_spaces {
            let mut k: usize = 0;
            let ghost base = out@;
            while k < indent_size
                invariant
                    k <= indent_size,
                    out@ == base + spaces(k as nat),
                decreases indent_size - k,
            {
                push_char(&mut out, ' ');
                proof {
                    assert(base + spaces(k as nat) + seq![' '] =~= base + spaces((k + 1) as nat));
                }
                k = k + 1;
            }
        } else {
            out.append("\t");
            proof {
                reveal_strlit("\t");
            }
        }
    }
    out
}

/// Opening a line below a line that ends (ignoring trailing whitespace)
/// with `:`, `{`, `(` or `[` indents one level deeper than that line's
/// leading blanks (`indent_size` spaces, or a tab), unless the editor says
/// the opener is inside a string; the opener is asked about at its own
/// column. After any other line, the new line keeps the leading blanks and
/// nothing is asked.
pub proof fn lemma_opener_adds_a_level(line: Seq<char>, in_string: bool, use_spaces: bool, indent_size: nat)
    requires
        line.len() < i32::MAX,
    ensures
        ({
            let t = trim_end_spec(line);
            let base = line.take(leading_blanks(line) as int);
            let opens = t.len() > 0 && (t.last() == ':' || t.last() == '{' || t.last() == '(' || t.last() == '[');
            &&& opens ==> opener_query_spec(line) == Some((t.len() - 1) as i32)
            &&& opens && !in_string && use_spaces ==> new_line_indent_spec(line, in_string, use_spaces, indent_size)
                == base + Seq::new(indent_size, |i: int| ' ')
            &&& opens && !in_string && !use_spaces ==> new_line_indent_spec(line, in_string, use_spaces, indent_size)
                == base.push('\t')
            &&& opens && in_string ==> new_line_indent_spec(line, in_string, use_spaces, indent_size) == base
            &&& !opens ==> opener_query_spec(line) is None
            &&& !opens ==> new_line_indent_spec(line, in_string, use_spaces, indent_size) == base
        }),
{
    crate::strs::lemma_rspan(line, CharClass::Whitespace);
    let t = trim_end_spec(line);
    assert(t.len() <= line.len());
}

} // verus!
