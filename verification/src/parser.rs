//! Config file parser: reads a vimrc into a [`ConfigDocument`] line by
//! line, keeping comments, blanks, settings and unknown lines verbatim and
//! attaching preset markers to the mapping that follows them.

use crate::config_types::{
    mode_prefix_of, parse_mode_prefix, ConfigDocument, ConfigLine, MapModePrefix, MappingKind,
    MappingPayload, ParsedMapping,
};
use crate::strs::{
    contains_seq, lines_of, span, span_end, starts_with, str_contains, str_starts_with, strip_cr,
    trim, trim_spec, trim_start, trim_start_spec, CharClass,
};
use crate::text::chars_of;
use vstd::prelude::*;
use vstd::string::StrSliceExecFns;

verus! {

broadcast use vstd::seq::group_seq_axioms;

/// A preset marker: `" preset:enabled [id]` or `" preset:disabled [id]`,
/// giving the (trimmed, possibly empty) id and whether the preset is on.
pub open spec fn preset_marker(line: Seq<char>) -> Option<(Seq<char>, bool)> {
    if line.len() > 0 && line[0] == '"' {
        let content = trim_spec(line.drop_first());
        if starts_with(content, "preset:enabled"@) {
            Some((trim_spec(content.skip("preset:enabled"@.len() as int)), true))
        } else if starts_with(content, "preset:disabled"@) {
            Some((trim_spec(content.skip("preset:disabled"@.len() as int)), false))
        } else {
            None
        }
    } else {
        None
    }
}

/// Parse a preset marker line.
pub fn parse_preset_marker(line: &str) -> (r: Option<(String, bool)>)
    ensures
        r.is_none() <==> preset_marker(line@).is_none(),
        r matches Some(m) ==> m.0@ == (preset_marker(line@)->0).0 && m.1 == (preset_marker(line@)->0).1,
{
    let v = chars_of(line);
    if v.len() == 0 || v[0] != '"' {
        return None;
    }
    let total = v.len();
    let after = line.substring_char(1, total);
    proof {
        assert(after@ =~= line@.drop_first());
    }
    let content = trim(after);
    let clen = content.unicode_len();
    if str_starts_with(content, "preset:enabled") {
        let k = "preset:enabled".unicode_len();
        let rest = content.substring_char(k, clen);
        proof {
            assert(rest@ =~= content@.skip(k as int));
        }
        return Some((trim(rest).to_owned(), true));
    }
    if str_starts_with(content, "preset:disabled") {
        let k = "preset:disabled".unicode_len();
        let rest = content.substring_char(k, clen);
        proof {
            assert(rest@ =~= content@.skip(k as int));
        }
        return Some((trim(rest).to_owned(), false));
    }
    None
}

/// The map command at the start of `line`, longest names first: its mode
/// prefix, whether it is a `noremap`, and the rest of the line.
pub open spec fn map_command_prefix(line: Seq<char>) -> Option<(Seq<char>, bool, Seq<char>)> {
    if starts_with(line, "nnoremap "@) {
        Some(("n"@, true, line.skip("nnoremap "@.len() as int)))
    } else if starts_with(line, "inoremap "@) {
        Some(("i"@, true, line.skip("inoremap "@.len() as int)))
    } else if starts_with(line, "vnoremap "@) {
        Some(("v"@, true, line.skip("vnoremap "@.len() as int)))
    } else if starts_with(line, "onoremap "@) {
        Some(("o"@, true, line.skip("onoremap "@.len() as int)))
    } else if starts_with(line, "cnoremap "@) {
        Some(("c"@, true, line.skip("cnoremap "@.len() as int)))
    } else if starts_with(line, "noremap "@) {
        Some((""@, true, line.skip("noremap "@.len() as int)))
    } else if starts_with(line, "nmap "@) {
        Some(("n"@, false, line.skip("nmap "@.len() as int)))
    } else if starts_with(line, "imap "@) {
        Some(("i"@, false, line.skip("imap "@.len() as int)))
    } else if starts_with(line, "vmap "@) {
        Some(("v"@, false, line.skip("vmap "@.len() as int)))
    } else if starts_with(line, "omap "@) {
        Some(("o"@, false, line.skip("omap "@.len() as int)))
    } else if starts_with(line, "cmap "@) {
        Some(("c"@, false, line.skip("cmap "@.len() as int)))
    } else if starts_with(line, "map "@) {
        Some((""@, false, line.skip("map "@.len() as int)))
    } else {
        None
    }
}

/// What a map command line loads: a line starting with the command `cmd`
/// (`vnoremap `, `nmap `, ...) gives a mapping exactly when its arguments
/// split into a left and a right side, and that mapping has the mode named
/// by the command's mode letter (`All` for plain `map`/`noremap`) and is
/// non-recursive exactly for a `noremap` command.
pub open spec fn map_command_loads(line: Seq<char>, cmd: Seq<char>, mode: MapModePrefix, kind: MappingKind) -> bool {
    starts_with(line, cmd) ==> {
        let args = split_first_ws(trim_spec(line.skip(cmd.len() as int)));
        &&& (mapping_command(line) is Some <==> args is Some)
        &&& (args matches Some((lhs, rhs)) ==> mapping_command(line) == Some((lhs, rhs, mode, kind)))
    }
}

/// Two commands that differ at position `i` cannot both start a line.
proof fn lemma_commands_exclusive(line: Seq<char>, p: Seq<char>, q: Seq<char>, i: int)
    requires
        starts_with(line, p),
        0 <= i < p.len(),
        i < q.len(),
        p[i] != q[i],
    ensures
        !starts_with(line, q),
{
    if starts_with(line, q) {
        assert(line.take(p.len() as int)[i] == line[i]);
        assert(line.take(q.len() as int)[i] == line[i]);
    }
}

proof fn lemma_loads_nnoremap(line: Seq<char>)
    ensures
        map_command_loads(line, "nnoremap "@, MapModePrefix::Normal, MappingKind::NonRecursive),
{
    reveal_strlit("nnoremap ");
    reveal_strlit("n");
    reveal_strlit("i");
    reveal_strlit("v");
    reveal_strlit("o");
    reveal_strlit("c");
    reveal_strlit("");
    if starts_with(line, "nnoremap "@) {
    }
}

proof fn lemma_loads_inoremap(line: Seq<char>)
    ensures
        map_command_loads(line, "inoremap "@, MapModePrefix::Insert, MappingKind::NonRecursive),
{
    reveal_strlit("inoremap ");
    reveal_strlit("n");
    reveal_strlit("i");
    reveal_strlit("v");
    reveal_strlit("o");
    reveal_strlit("c");
    reveal_strlit("");
    assert("i"@[0] != "n"@[0]);
    if starts_with(line, "inoremap "@) {
        reveal_strlit("nnoremap ");
        lemma_commands_exclusive(line, "inoremap "@, "nnoremap "@, 0);
    }
}

proof fn lemma_loads_vnoremap(line: Seq<char>)
    ensures
        map_command_loads(line, "vnoremap "@, MapModePrefix::Visual, MappingKind::NonRecursive),
{
    reveal_strlit("vnoremap ");
    reveal_strlit("n");
    reveal_strlit("i");
    reveal_strlit("v");
    reveal_strlit("o");
    reveal_strlit("c");
    reveal_strlit("");
    assert("v"@[0] != "n"@[0]);
    assert("v"@[0] != "i"@[0]);
    if starts_with(line, "vnoremap "@) {
        reveal_strlit("nnoremap ");
        lemma_commands_exclusive(line, "vnoremap "@, "nnoremap "@, 0);
        reveal_strlit("inoremap ");
        lemma_commands_exclusive(line, "vnoremap "@, "inoremap "@, 0);
    }
}

proof fn lemma_loads_onoremap(line: Seq<char>)
    ensures
        map_command_loads(line, "onoremap "@, MapModePrefix::Operator, MappingKind::NonRecursive),
{
    reveal_strlit("onoremap ");
    reveal_strlit("n");
    reveal_strlit("i");
    reveal_strlit("v");
    reveal_strlit("o");
    reveal_strlit("c");
    reveal_strlit("");
    assert("o"@[0] != "n"@[0]);
    assert("o"@[0] != "i"@[0]);
    assert("o"@[0] != "v"@[0]);
    if starts_with(line, "onoremap "@) {
        reveal_strlit("nnoremap ");
        lemma_commands_exclusive(line, "onoremap "@, "nnoremap "@, 0);
        reveal_strlit("inoremap ");
        lemma_commands_exclusive(line, "onoremap "@, "inoremap "@, 0);
        reveal_strlit("vnoremap ");
        lemma_commands_exclusive(line, "onoremap "@, "vnoremap "@, 0);
    }
}

proof fn lemma_loads_cnoremap(line: Seq<char>)
    ensures
        map_command_loads(line, "cnoremap "@, MapModePrefix::Command, MappingKind::NonRecursive),
{
    reveal_strlit("cnoremap ");
    reveal_strlit("n");
    reveal_strlit("i");
    reveal_strlit("v");
    reveal_strlit("o");
    reveal_strlit("c");
    reveal_strlit("");
    assert("c"@[0] != "n"@[0]);
    assert("c"@[0] != "i"@[0]);
    assert("c"@[0] != "v"@[0]);
    assert("c"@[0] != "o"@[0]);
    if starts_with(line, "cnoremap "@) {
        reveal_strlit("nnoremap ");
        lemma_commands_exclusive(line, "cnoremap "@, "nnoremap "@, 0);
        reveal_strlit("inoremap ");
        lemma_commands_exclusive(line, "cnoremap "@, "inoremap "@, 0);
        reveal_strlit("vnoremap ");
        lemma_commands_exclusive(line, "cnoremap "@, "vnoremap "@, 0);
        reveal_strlit("onoremap ");
        lemma_commands_exclusive(line, "cnoremap "@, "onoremap "@, 0);
    }
}

proof fn lemma_loads_noremap(line: Seq<char>)
    ensures
        map_command_loads(line, "noremap "@, MapModePrefix::All, MappingKind::NonRecursive),
{
    reveal_strlit("noremap ");
    reveal_strlit("n");
    reveal_strlit("i");
    reveal_strlit("v");
    reveal_strlit("o");
    reveal_strlit("c");
    reveal_strlit("");
    assert(""@.len() != "n"@.len());
    assert(""@.len() != "i"@.len());
    assert(""@.len() != "v"@.len());
    assert(""@.len() != "o"@.len());
    assert(""@.len() != "c"@.len());
    if starts_with(line, "noremap "@) {
        reveal_strlit("nnoremap ");
        lemma_commands_exclusive(line, "noremap "@, "nnoremap "@, 1);
        reveal_strlit("inoremap ");
        lemma_commands_exclusive(line, "noremap "@, "inoremap "@, 0);
        reveal_strlit("vnoremap ");
        lemma_commands_exclusive(line, "noremap "@, "vnoremap "@, 0);
        reveal_strlit("onoremap ");
        lemma_commands_exclusive(line, "noremap "@, "onoremap "@, 0);
        reveal_strlit("cnoremap ");
        lemma_commands_exclusive(line, "noremap "@, "cnoremap "@, 0);
    }
}

proof fn lemma_loads_nmap(line: Seq<char>)
    ensures
        map_command_loads(line, "nmap "@, MapModePrefix::Normal, MappingKind::Recursive),
{
    reveal_strlit("nmap ");
    reveal_strlit("n");
    reveal_strlit("i");
    reveal_strlit("v");
    reveal_strlit("o");
    reveal_strlit("c");
    reveal_strlit("");
    if starts_with(line, "nmap "@) {
        reveal_strlit("nnoremap ");
        lemma_commands_exclusive(line, "nmap "@, "nnoremap "@, 1);
        reveal_strlit("inoremap ");
        lemma_commands_exclusive(line, "nmap "@, "inoremap "@, 0);
        reveal_strlit("vnoremap ");
        lemma_commands_exclusive(line, "nmap "@, "vnoremap "@, 0);
        reveal_strlit("onoremap ");
        lemma_commands_exclusive(line, "nmap "@, "onoremap "@, 0);
        reveal_strlit("cnoremap ");
        lemma_commands_exclusive(line, "nmap "@, "cnoremap "@, 0);
        reveal_strlit("noremap ");
        lemma_commands_exclusive(line, "nmap "@, "noremap "@, 1);
    }
}

proof fn lemma_loads_imap(line: Seq<char>)
    ensures
        map_command_loads(line, "imap "@, MapModePrefix::Insert, MappingKind::Recursive),
{
    reveal_strlit("imap ");
    reveal_strlit("n");
    reveal_strlit("i");
    reveal_strlit("v");
    reveal_strlit("o");
    reveal_strlit("c");
    reveal_strlit("");
    assert("i"@[0] != "n"@[0]);
    if starts_with(line, "imap "@) {
        reveal_strlit("nnoremap ");
        lemma_commands_exclusive(line, "imap "@, "nnoremap "@, 0);
        reveal_strlit("inoremap ");
        lemma_commands_exclusive(line, "imap "@, "inoremap "@, 1);
        reveal_strlit("vnoremap ");
        lemma_commands_exclusive(line, "imap "@, "vnoremap "@, 0);
        reveal_strlit("onoremap ");
        lemma_commands_exclusive(line, "imap "@, "onoremap "@, 0);
        reveal_strlit("cnoremap ");
        lemma_commands_exclusive(line, "imap "@, "cnoremap "@, 0);
        reveal_strlit("noremap ");
        lemma_commands_exclusive(line, "imap "@, "noremap "@, 0);
        reveal_strlit("nmap ");
        lemma_commands_exclusive(line, "imap "@, "nmap "@, 0);
    }
}

proof fn lemma_loads_vmap(line: Seq<char>)
    ensures
        map_command_loads(line, "vmap "@, MapModePrefix::Visual, MappingKind::Recursive),
{
    reveal_strlit("vmap ");
    reveal_strlit("n");
    reveal_strlit("i");
    reveal_strlit("v");
    reveal_strlit("o");
    reveal_strlit("c");
    reveal_strlit("");
    assert("v"@[0] != "n"@[0]);
    assert("v"@[0] != "i"@[0]);
    if starts_with(line, "vmap "@) {
        reveal_strlit("nnoremap ");
        lemma_commands_exclusive(line, "vmap "@, "nnoremap "@, 0);
        reveal_strlit("inoremap ");
        lemma_commands_exclusive(line, "vmap "@, "inoremap "@, 0);
        reveal_strlit("vnoremap ");
        lemma_commands_exclusive(line, "vmap "@, "vnoremap "@, 1);
        reveal_strlit("onoremap ");
        lemma_commands_exclusive(line, "vmap "@, "onoremap "@, 0);
        reveal_strlit("cnoremap ");
        lemma_commands_exclusive(line, "vmap "@, "cnoremap "@, 0);
        reveal_strlit("noremap ");
        lemma_commands_exclusive(line, "vmap "@, "noremap "@, 0);
        reveal_strlit("nmap ");
        lemma_commands_exclusive(line, "vmap "@, "nmap "@, 0);
        reveal_strlit("imap ");
        lemma_commands_exclusive(line, "vmap "@, "imap "@, 0);
    }
}

proof fn lemma_loads_omap(line: Seq<char>)
    ensures
        map_command_loads(line, "omap "@, MapModePrefix::Operator, MappingKind::Recursive),
{
    reveal_strlit("omap ");
    reveal_strlit("n");
    reveal_strlit("i");
    reveal_strlit("v");
    reveal_strlit("o");
    reveal_strlit("c");
    reveal_strlit("");
    assert("o"@[0] != "n"@[0]);
    assert("o"@[0] != "i"@[0]);
    assert("o"@[0] != "v"@[0]);
    if starts_with(line, "omap "@) {
        reveal_strlit("nnoremap ");
        lemma_commands_exclusive(line, "omap "@, "nnoremap "@, 0);
        reveal_strlit("inoremap ");
        lemma_commands_exclusive(line, "omap "@, "inoremap "@, 0);
        reveal_strlit("vnoremap ");
        lemma_commands_exclusive(line, "omap "@, "vnoremap "@, 0);
        reveal_strlit("onoremap ");
        lemma_commands_exclusive(line, "omap "@, "onoremap "@, 1);
        reveal_strlit("cnoremap ");
        lemma_commands_exclusive(line, "omap "@, "cnoremap "@, 0);
        reveal_strlit("noremap ");
        lemma_commands_exclusive(line, "omap "@, "noremap "@, 0);
        reveal_strlit("nmap ");
        lemma_commands_exclusive(line, "omap "@, "nmap "@, 0);
        reveal_strlit("imap ");
        lemma_commands_exclusive(line, "omap "@, "imap "@, 0);
        reveal_strlit("vmap ");
        lemma_commands_exclusive(line, "omap "@, "vmap "@, 0);
    }
}

proof fn lemma_loads_cmap(line: Seq<char>)
    ensures
        map_command_loads(line, "cmap "@, MapModePrefix::Command, MappingKind::Recursive),
{
    reveal_strlit("cmap ");
    reveal_strlit("n");
    reveal_strlit("i");
    reveal_strlit("v");
    reveal_strlit("o");
    reveal_strlit("c");
    reveal_strlit("");
    assert("c"@[0] != "n"@[0]);
    assert("c"@[0] != "i"@[0]);
    assert("c"@[0] != "v"@[0]);
    assert("c"@[0] != "o"@[0]);
    if starts_with(line, "cmap "@) {
        reveal_strlit("nnoremap ");
        lemma_commands_exclusive(line, "cmap "@, "nnoremap "@, 0);
        reveal_strlit("inoremap ");
        lemma_commands_exclusive(line, "cmap "@, "inoremap "@, 0);
        reveal_strlit("vnoremap ");
        lemma_commands_exclusive(line, "cmap "@, "vnoremap "@, 0);
        reveal_strlit("onoremap ");
        lemma_commands_exclusive(line, "cmap "@, "onoremap "@, 0);
        reveal_strlit("cnoremap ");
        lemma_commands_exclusive(line, "cmap "@, "cnoremap "@, 1);
        reveal_strlit("noremap ");
        lemma_commands_exclusive(line, "cmap "@, "noremap "@, 0);
        reveal_strlit("nmap ");
        lemma_commands_exclusive(line, "cmap "@, "nmap "@, 0);
        reveal_strlit("imap ");
        lemma_commands_exclusive(line, "cmap "@, "imap "@, 0);
        reveal_strlit("vmap ");
        lemma_commands_exclusive(line, "cmap "@, "vmap "@, 0);
        reveal_strlit("omap ");
        lemma_commands_exclusive(line, "cmap "@, "omap "@, 0);
    }
}

proof fn lemma_loads_map(line: Seq<char>)
    ensures
        map_command_loads(line, "map "@, MapModePrefix::All, MappingKind::Recursive),
{
    reveal_strlit("map ");
    reveal_strlit("n");
    reveal_strlit("i");
    reveal_strlit("v");
    reveal_strlit("o");
    reveal_strlit("c");
    reveal_strlit("");
    assert(""@.len() != "n"@.len());
    assert(""@.len() != "i"@.len());
    assert(""@.len() != "v"@.len());
    assert(""@.len() != "o"@.len());
    assert(""@.len() != "c"@.len());
    if starts_with(line, "map "@) {
        reveal_strlit("nnoremap ");
        lemma_commands_exclusive(line, "map "@, "nnoremap "@, 0);
        reveal_strlit("inoremap ");
        lemma_commands_exclusive(line, "map "@, "inoremap "@, 0);
        reveal_strlit("vnoremap ");
        lemma_commands_exclusive(line, "map "@, "vnoremap "@, 0);
        reveal_strlit("onoremap ");
        lemma_commands_exclusive(line, "map "@, "onoremap "@, 0);
        reveal_strlit("cnoremap ");
        lemma_commands_exclusive(line, "map "@, "cnoremap "@, 0);
        reveal_strlit("noremap ");
        lemma_commands_exclusive(line, "map "@, "noremap "@, 0);
        reveal_strlit("nmap ");
        lemma_commands_exclusive(line, "map "@, "nmap "@, 0);
        reveal_strlit("imap ");
        lemma_commands_exclusive(line, "map "@, "imap "@, 0);
        reveal_strlit("vmap ");
        lemma_commands_exclusive(line, "map "@, "vmap "@, 0);
        reveal_strlit("omap ");
        lemma_commands_exclusive(line, "map "@, "omap "@, 0);
        reveal_strlit("cmap ");
        lemma_commands_exclusive(line, "map "@, "cmap "@, 0);
    }
}

/// Each map command loads its mapping in the mode its name gives: `n`
/// Normal, `i` Insert, `v` Visual, `o` Operator-pending, `c` Command-line,
/// none for all of Normal, Visual and Operator-pending; `noremap` commands
/// load non-recursive mappings and `map` commands recursive ones.
pub proof fn lemma_map_commands_name_their_mode(line: Seq<char>)
    ensures
        map_command_loads(line, "nnoremap "@, MapModePrefix::Normal, MappingKind::NonRecursive),
        map_command_loads(line, "inoremap "@, MapModePrefix::Insert, MappingKind::NonRecursive),
        map_command_loads(line, "vnoremap "@, MapModePrefix::Visual, MappingKind::NonRecursive),
        map_command_loads(line, "onoremap "@, MapModePrefix::Operator, MappingKind::NonRecursive),
        map_command_loads(line, "cnoremap "@, MapModePrefix::Command, MappingKind::NonRecursive),
        map_command_loads(line, "noremap "@, MapModePrefix::All, MappingKind::NonRecursive),
        map_command_loads(line, "nmap "@, MapModePrefix::Normal, MappingKind::Recursive),
        map_command_loads(line, "imap "@, MapModePrefix::Insert, MappingKind::Recursive),
        map_command_loads(line, "vmap "@, MapModePrefix::Visual, MappingKind::Recursive),
        map_command_loads(line, "omap "@, MapModePrefix::Operator, MappingKind::Recursive),
        map_command_loads(line, "cmap "@, MapModePrefix::Command, MappingKind::Recursive),
        map_command_loads(line, "map "@, MapModePrefix::All, MappingKind::Recursive),
{
    lemma_loads_nnoremap(line);
    lemma_loads_inoremap(line);
    lemma_loads_vnoremap(line);
    lemma_loads_onoremap(line);
    lemma_loads_cnoremap(line);
    lemma_loads_noremap(line);
    lemma_loads_nmap(line);
    lemma_loads_imap(line);
    lemma_loads_vmap(line);
    lemma_loads_omap(line);
    lemma_loads_cmap(line);
    lemma_loads_map(line);
}

/// `line` after `cmd`, if it starts with it.
fn after_prefix<'a>(line: &'a str, cmd: &str) -> (r: Option<&'a str>)
    ensures
        r.is_none() <==> !starts_with(line@, cmd@),
        r matches Some(s) ==> s@ == line@.skip(cmd@.len() as int),
{
    if str_starts_with(line, cmd) {
        let k = cmd.unicode_len();
        let total = line.unicode_len();
        let rest = line.substring_char(k, total);
        proof {
            assert(rest@ =~= line@.skip(k as int));
        }
        Some(rest)
    } else {
        None
    }
}

/// Mode prefix, noremap flag and rest of a map command line.
pub fn parse_map_command_prefix(line: &str) -> (r: Option<(&'static str, bool, &str)>)
    ensures
        r.is_none() <==> map_command_prefix(line@).is_none(),
        r matches Some(m) ==> (m.0@, m.1, m.2@) == map_command_prefix(line@)->0,
{
    if let Some(rest) = after_prefix(line, "nnoremap ") {
        return Some(("n", true, rest));
    }
    if let Some(rest) = after_prefix(line, "inoremap ") {
        return Some(("i", true, rest));
    }
    if let Some(rest) = after_prefix(line, "vnoremap ") {
        return Some(("v", true, rest));
    }
    if let Some(rest) = after_prefix(line, "onoremap ") {
        return Some(("o", true, rest));
    }
    if let Some(rest) = after_prefix(line, "cnoremap ") {
        return Some(("c", true, rest));
    }
    if let Some(rest) = after_prefix(line, "noremap ") {
        return Some(("", true, rest));
    }
    if let Some(rest) = after_prefix(line, "nmap ") {
        return Some(("n", false, rest));
    }
    if let Some(rest) = after_prefix(line, "imap ") {
        return Some(("i", false, rest));
    }
    if let Some(rest) = after_prefix(line, "vmap ") {
        return Some(("v", false, rest));
    }
    if let Some(rest) = after_prefix(line, "omap ") {
        return Some(("o", false, rest));
    }
    if let Some(rest) = after_prefix(line, "cmap ") {
        return Some(("c", false, rest));
    }
    if let Some(rest) = after_prefix(line, "map ") {
        return Some(("", false, rest));
    }
    None
}

/// `s` split at its first whitespace character into the word before it
/// and the rest without leading whitespace; `None` when there is no
/// whitespace or nothing follows it.
pub open spec fn split_first_ws(s: Seq<char>) -> Option<(Seq<char>, Seq<char>)> {
    let e = span(s, CharClass::NotWhitespace) as int;
    if e >= s.len() {
        None
    } else {
        let rhs = trim_start_spec(s.skip(e));
        if rhs.len() == 0 {
            None
        } else {
            Some((s.take(e), rhs))
        }
    }
}

pub fn split_at_first_whitespace(s: &str) -> (r: Option<(&str, &str)>)
    ensures
        r.is_none() <==> split_first_ws(s@).is_none(),
        r matches Some(p) ==> (p.0@, p.1@) == split_first_ws(s@)->0,
{
    let v = chars_of(s);
    let e = span_end(&v, 0, CharClass::NotWhitespace);
    proof {
        assert(v@.skip(0) =~= s@);
    }
    if e >= v.len() {
        return None;
    }
    let lhs = s.substring_char(0, e);
    let tail = s.substring_char(e, v.len());
    proof {
        assert(lhs@ =~= s@.take(e as int));
        assert(tail@ =~= s@.skip(e as int));
    }
    let rhs = trim_start(tail);
    if rhs.unicode_len() == 0 {
        None
    } else {
        Some((lhs, rhs))
    }
}

/// A mapping read from a command line: `lhs`, `rhs`, modes and kind.
pub open spec fn mapping_command(line: Seq<char>) -> Option<(Seq<char>, Seq<char>, MapModePrefix, MappingKind)> {
    match map_command_prefix(line) {
        None => None,
        Some((prefix, noremap, rest0)) => {
            let rest = trim_spec(rest0);
            if rest.len() == 0 {
                None
            } else {
                match split_first_ws(rest) {
                    None => None,
                    Some((lhs, rhs)) => match mode_prefix_of(prefix) {
                        None => None,
                        Some(modes) => Some(
                            (
                                lhs,
                                rhs,
                                modes,
                                if noremap {
                                    MappingKind::NonRecursive
                                } else {
                                    MappingKind::Recursive
                                },
                            ),
                        ),
                    },
                }
            }
        },
    }
}

pub open spec fn mapping_view(m: ParsedMapping) -> (Seq<char>, Seq<char>, MapModePrefix, MappingKind) {
    (m.lhs@, m.rhs@, m.modes, m.kind)
}

/// Parse a line as a mapping command.
pub fn try_parse_mapping_command(line: &str) -> (r: Option<ParsedMapping>)
    ensures
        r.is_none() <==> mapping_command(line@).is_none(),
        r matches Some(m) ==> mapping_view(m) == mapping_command(line@)->0,
{
    let (prefix, noremap, rest) = match parse_map_command_prefix(line) {
        Some(x) => x,
        None => return None,
    };
    let rest = trim(rest);
    if rest.unicode_len() == 0 {
        return None;
    }
    let (lhs, rhs) = match split_at_first_whitespace(rest) {
        Some(x) => x,
        None => return None,
    };
    let modes = match parse_mode_prefix(prefix) {
        Some(m) => m,
        None => return None,
    };
    Some(
        ParsedMapping {
            lhs: lhs.to_owned(),
            rhs: rhs.to_owned(),
            modes,
            kind: if noremap {
                MappingKind::NonRecursive
            } else {
                MappingKind::Recursive
            },
        },
    )
}

/// A config line as sequences of characters.
pub enum LineView {
    Comment(Seq<char>),
    Blank,
    Mapping(Option<Seq<char>>, bool, (Seq<char>, Seq<char>, MapModePrefix, MappingKind)),
    Setting(Seq<char>),
    Leader(Seq<char>),
    Other(Seq<char>),
}

pub open spec fn line_view(l: ConfigLine) -> LineView {
    match l {
        ConfigLine::Comment(s) => LineView::Comment(s@),
        ConfigLine::BlankLine => LineView::Blank,
        ConfigLine::Mapping(p) => LineView::Mapping(
            match p.preset_id {
                Some(id) => Some(id@),
                None => None,
            },
            p.enabled,
            mapping_view(p.parsed),
        ),
        ConfigLine::Setting(s) => LineView::Setting(s@),
        ConfigLine::Leader(s) => LineView::Leader(s@),
        ConfigLine::Other(s) => LineView::Other(s@),
    }
}

pub open spec fn line_views(ls: Seq<ConfigLine>) -> Seq<LineView> {
    ls.map_values(|l: ConfigLine| line_view(l))
}

/// A preset marker waiting for its mapping: its id, whether the preset is
/// enabled, and the marker line as written.
pub type PendingMarker = (Seq<char>, bool, Seq<char>);

/// A pending marker that no mapping takes is kept as a comment line.
pub open spec fn orphan(pending: Option<PendingMarker>) -> Seq<LineView> {
    match pending {
        Some((_, _, raw)) => seq![LineView::Comment(raw)],
        None => seq![],
    }
}

/// What one raw line gives, with the pending preset marker before it: the
/// lines, and the marker pending after it. A marker becomes pending; a
/// mapping takes the pending marker; a disabled mapping (`" disabled: ...`,
/// or a commented mapping after a disabled marker) is read back as a
/// mapping. A pending marker that the line does not take is kept as a
/// comment line before it.
pub open spec fn parse_step(raw: Seq<char>, pending: Option<PendingMarker>) -> (
    Seq<LineView>,
    Option<PendingMarker>,
) {
    let t = trim_spec(raw);
    if preset_marker(t) is Some {
        (orphan(pending), Some(((preset_marker(t)->0).0, (preset_marker(t)->0).1, raw)))
    } else if t.len() == 0 {
        (orphan(pending).push(LineView::Blank), None)
    } else if t[0] == '"' {
        let disabled = if starts_with(t, "\" disabled:"@) {
            mapping_command(trim_start_spec(t.skip("\" disabled:"@.len() as int)))
        } else {
            None
        };
        let uncommented = trim_spec(t.skip(span(t, CharClass::Quote) as int));
        if disabled is Some {
            (orphan(pending).push(LineView::Mapping(None, false, disabled->0)), None)
        } else if pending matches Some((id, false, _)) && mapping_command(uncommented) is Some {
            (seq![LineView::Mapping(Some((pending->0).0), false, mapping_command(uncommented)->0)], None)
        } else {
            (orphan(pending).push(LineView::Comment(raw)), None)
        }
    } else if mapping_command(t) is Some {
        match pending {
            Some((id, en, _)) => (seq![LineView::Mapping(Some(id), en, mapping_command(t)->0)], None),
            None => (seq![LineView::Mapping(None, true, mapping_command(t)->0)], None),
        }
    } else if starts_with(t, "set "@) || starts_with(t, "se "@) {
        (orphan(pending).push(LineView::Setting(raw)), None)
    } else if starts_with(t, "let "@) && contains_seq(t, "mapleader"@) {
        (orphan(pending).push(LineView::Leader(raw)), None)
    } else {
        (orphan(pending).push(LineView::Other(raw)), None)
    }
}

/// The config lines of raw lines `ls` read in order; a marker still pending
/// at the end is kept as a comment line.
pub open spec fn parse_lines(ls: Seq<Seq<char>>, pending: Option<PendingMarker>) -> Seq<LineView>
    decreases ls.len(),
{
    if ls.len() == 0 {
        orphan(pending)
    } else {
        let st = parse_step(ls[0], pending);
        st.0 + parse_lines(ls.drop_first(), st.1)
    }
}

pub open spec fn pending_view(p: Option<(String, bool, String)>) -> Option<PendingMarker> {
    match p {
        Some((id, en, raw)) => Some((id@, en, raw@)),
        None => None,
    }
}

/// The pending marker kept as a comment line, if any.
fn orphan_line(pending: Option<(String, bool, String)>) -> (r: Option<ConfigLine>)
    ensures
        match r {
            Some(l) => orphan(pending_view(pending)) == seq![line_view(l)],
            None => orphan(pending_view(pending)) == Seq::<LineView>::empty(),
        },
{
    match pending {
        Some((_, _, raw)) => Some(ConfigLine::Comment(raw)),
        None => None,
    }
}

/// One step of the parse: the lines `raw` gives, and the pending marker
/// after it.
fn parse_line(raw: &str, pending: Option<(String, bool, String)>) -> (r: (Vec<ConfigLine>, Option<(String, bool, String)>))
    ensures
        ({
            let st = parse_step(raw@, pending_view(pending));
            &&& line_views(r.0@) == st.0
            &&& pending_view(r.1) == st.1
        }),
{
    let trimmed = trim(raw);
    let marker = parse_preset_marker(trimmed);
    let mut out: Vec<ConfigLine> = Vec::new();
    if let Some((id, en)) = marker {
        if let Some(l) = orphan_line(pending) {
            out.push(l);
        }
        proof {
            assert(line_views(out@) =~= parse_step(raw@, pending_view(pending)).0);
        }
        return (out, Some((id, en, raw.to_owned())));
    }
    let tv = chars_of(trimmed);
    let line = if tv.len() == 0 {
        ConfigLine::BlankLine
    } else if tv[0] == '"' {
        let tlen = tv.len();
        let disabled = if str_starts_with(trimmed, "\" disabled:") {
            let k = "\" disabled:".unicode_len();
            let rest = trimmed.substring_char(k, tlen);
            proof {
                assert(rest@ =~= trimmed@.skip(k as int));
            }
            try_parse_mapping_command(trim_start(rest))
        } else {
            None
        };
        let q = span_end(&tv, 0, CharClass::Quote);
        let uq = trimmed.substring_char(q, tlen);
        proof {
            assert(tv@.skip(0) =~= trimmed@);
            assert(uq@ =~= trimmed@.skip(q as int));
        }
        let uncommented = trim(uq);
        if let Some(parsed) = disabled {
            ConfigLine::Mapping(Box::new(MappingPayload { preset_id: None, enabled: false, parsed }))
        } else {
            let is_disabled_preset = match &pending {
                Some((_, en, _)) => !*en,
                None => false,
            };
            let taken = if is_disabled_preset {
                try_parse_mapping_command(uncommented)
            } else {
                None
            };
            if let Some(parsed) = taken {
                let id = match pending {
                    Some((id, _, _)) => id,
                    None => String::new(),
                };
                let l = ConfigLine::Mapping(Box::new(MappingPayload { preset_id: Some(id), enabled: false, parsed }));
                out.push(l);
                proof {
                    assert(line_views(out@) =~= parse_step(raw@, pending_view(pending)).0);
                }
                return (out, None);
            }
            ConfigLine::Comment(raw.to_owned())
        }
    } else if let Some(parsed) = try_parse_mapping_command(trimmed) {
        let (preset_id, enabled) = match pending {
            Some((id, en, _)) => (Some(id), en),
            None => (None, true),
        };
        out.push(ConfigLine::Mapping(Box::new(MappingPayload { preset_id, enabled, parsed })));
        proof {
            assert(line_views(out@) =~= parse_step(raw@, pending_view(pending)).0);
        }
        return (out, None);
    } else if str_starts_with(trimmed, "set ") || str_starts_with(trimmed, "se ") {
        ConfigLine::Setting(raw.to_owned())
    } else if str_starts_with(trimmed, "let ") && str_contains(trimmed, "mapleader") {
        ConfigLine::Leader(raw.to_owned())
    } else {
        ConfigLine::Other(raw.to_owned())
    };
    let ghost pv = pending_view(pending);
    if let Some(l) = orphan_line(pending) {
        out.push(l);
    }
    let ghost before = out@;
    out.push(line);
    proof {
        assert(line_views(before) =~= orphan(pv));
        assert(line_views(out@) =~= orphan(pv).push(line_view(line)));
        assert(line_views(out@) =~= parse_step(raw@, pv).0);
    }
    (out, None)
}

/// The config document of `text`, line by line.
pub fn parse_config(text: &str) -> (r: ConfigDocument)
    ensures
        line_views(r.lines@) == parse_lines(lines_of(text@), None),
{
    let v = chars_of(text);
    let n = v.len();
    let mut lines: Vec<ConfigLine> = Vec::new();
    let mut pending: Option<(String, bool, String)> = None;
    let mut pos: usize = 0;
    proof {
        assert(text@.skip(0) =~= text@);
        assert(line_views(lines@) =~= Seq::<LineView>::empty());
    }
    while pos < n
        invariant
            v@ == text@,
            n == v@.len(),
            pos <= n,
            line_views(lines@) + parse_lines(lines_of(text@.skip(pos as int)), pending_view(pending))
                == parse_lines(lines_of(text@), None),
        decreases n - pos,
    {
        let ghost s = text@.skip(pos as int);
        let ghost pv = pending_view(pending);
        let e = span_end(&v, pos, CharClass::NotNewline);
        let line_end = if e < n && e > pos && v[e - 1] == '\r' {
            e - 1
        } else {
            e
        };
        let raw = text.substring_char(pos, line_end);
        let ghost rest = if e < n {
            text@.skip(e + 1)
        } else {
            Seq::<char>::empty()
        };
        proof {
            assert(v@.skip(pos as int) == s);
            let er = e - pos;
            if e < n {
                assert(s.take(er) =~= text@.subrange(pos as int, e as int));
                if er > 0 {
                    assert(s.take(er).last() == v@[e - 1]);
                }
                assert(strip_cr(s.take(er)) =~= raw@);
                assert(s.skip(er + 1) =~= text@.skip(e + 1));
            } else {
                assert(s =~= raw@);
            }
            assert(lines_of(s) == seq![raw@] + lines_of(rest));
            assert((seq![raw@] + lines_of(rest))[0] == raw@);
            assert((seq![raw@] + lines_of(rest)).drop_first() =~= lines_of(rest));
        }
        let (mut items, next) = parse_line(raw, pending);
        let ghost before = lines@;
        let ghost added = items@;
        lines.append(&mut items);
        proof {
            assert(line_views(lines@) =~= line_views(before) + line_views(added));
        }
        pending = next;
        pos = if e < n {
            e + 1
        } else {
            n
        };
        proof {
            if e >= n {
                assert(text@.skip(pos as int) =~= Seq::<char>::empty());
            }
            assert(line_views(lines@) + parse_lines(lines_of(text@.skip(pos as int)), pending_view(pending))
                =~= parse_lines(lines_of(text@), None));
        }
    }
    proof {
        assert(text@.skip(pos as int) =~= Seq::<char>::empty());
        assert(lines_of(Seq::<char>::empty()) =~= Seq::<Seq<char>>::empty());
    }
    let ghost before = lines@;
    let ghost pv = pending_view(pending);
    if let Some(l) = orphan_line(pending) {
        lines.push(l);
    }
    proof {
        assert(line_views(lines@) =~= line_views(before) + orphan(pv));
    }
    ConfigDocument { lines }
}

} // verus!
