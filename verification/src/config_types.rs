//! Data types of the config file: mode prefixes, mode sets, parsed
//! mappings and the line-preserving document, with the `timeoutlen`
//! setting and the rendering of a mapping as a Vim command.

use crate::perf::{decimal, push_decimal};
use crate::strs::{str_equal, str_starts_with, starts_with, trim, trim_spec};
use crate::text::chars_of;
use vstd::prelude::*;
use vstd::string::StrSliceExecFns;
use vstd::string::StringExecFns;

verus! {

broadcast use vstd::seq::group_seq_axioms;

/// Mode prefix of a map command (`:nmap` has `n`, `:map` has none).
#[derive(Debug, Clone, Copy, PartialEq, Eq, Hash, Structural)]
pub enum MapModePrefix {
    All,
    Normal,
    Visual,
    Insert,
    Operator,
    Command,
    VisualOnly,
    SelectOnly,
}

impl MapModePrefix {
    /// Every mode prefix.
    pub fn all() -> (r: Vec<MapModePrefix>)
        ensures
            r@ == seq![
                MapModePrefix::All,
                MapModePrefix::Normal,
                MapModePrefix::Visual,
                MapModePrefix::Insert,
                MapModePrefix::Operator,
                MapModePrefix::Command,
                MapModePrefix::VisualOnly,
                MapModePrefix::SelectOnly,
            ],
    {
        let mut r = Vec::new();
        r.push(MapModePrefix::All);
        r.push(MapModePrefix::Normal);
        r.push(MapModePrefix::Visual);
        r.push(MapModePrefix::Insert);
        r.push(MapModePrefix::Operator);
        r.push(MapModePrefix::Command);
        r.push(MapModePrefix::VisualOnly);
        r.push(MapModePrefix::SelectOnly);
        proof {
            assert(r@ =~= seq![
                MapModePrefix::All,
                MapModePrefix::Normal,
                MapModePrefix::Visual,
                MapModePrefix::Insert,
                MapModePrefix::Operator,
                MapModePrefix::Command,
                MapModePrefix::VisualOnly,
                MapModePrefix::SelectOnly,
            ]);
        }
        r
    }
}

/// Recursive (`map`) or non-recursive (`noremap`) mapping.
#[derive(Debug, Clone, Copy, PartialEq, Eq, Hash, Structural)]
pub enum MappingKind {
    Recursive,
    NonRecursive,
}

/// A set of modes, as the mapping dialog's checkboxes show them.
#[derive(Debug, Clone, Copy, PartialEq, Eq, Default, Structural)]
pub struct ModeSet {
    pub normal: bool,
    pub insert: bool,
    pub visual: bool,
    pub operator: bool,
    pub command: bool,
}

impl ModeSet {
    pub open spec fn mk(n: bool, i: bool, v: bool, o: bool, c: bool) -> ModeSet {
        ModeSet { normal: n, insert: i, visual: v, operator: o, command: c }
    }

    /// No mode.
    pub fn empty() -> (r: Self)
        ensures
            r == Self::mk(false, false, false, false, false),
    {
        ModeSet { normal: false, insert: false, visual: false, operator: false, command: false }
    }

    /// Normal mode only.
    pub fn normal() -> (r: Self)
        ensures
            r == Self::mk(true, false, false, false, false),
    {
        ModeSet { normal: true, insert: false, visual: false, operator: false, command: false }
    }

    /// Insert mode only.
    pub fn insert() -> (r: Self)
        ensures
            r == Self::mk(false, true, false, false, false),
    {
        ModeSet { normal: false, insert: true, visual: false, operator: false, command: false }
    }

    /// Visual mode only.
    pub fn visual() -> (r: Self)
        ensures
            r == Self::mk(false, false, true, false, false),
    {
        ModeSet { normal: false, insert: false, visual: true, operator: false, command: false }
    }

    /// Operator-pending mode only.
    pub fn operator() -> (r: Self)
        ensures
            r == Self::mk(false, false, false, true, false),
    {
        ModeSet { normal: false, insert: false, visual: false, operator: true, command: false }
    }

    /// Command-line mode only.
    pub fn command() -> (r: Self)
        ensures
            r == Self::mk(false, false, false, false, true),
    {
        ModeSet { normal: false, insert: false, visual: false, operator: false, command: true }
    }

    /// Normal, visual and operator-pending: what `:map` covers.
    pub fn nvo() -> (r: Self)
        ensures
            r == Self::mk(true, false, true, true, false),
    {
        ModeSet { normal: true, insert: false, visual: true, operator: true, command: false }
    }

    /// Every mode of `other` is in `self`.
    pub open spec fn contains_spec(self, other: ModeSet) -> bool {
        &&& other.normal ==> self.normal
        &&& other.insert ==> self.insert
        &&& other.visual ==> self.visual
        &&& other.operator ==> self.operator
        &&& other.command ==> self.command
    }

    pub fn contains(&self, other: ModeSet) -> (r: bool)
        ensures
            r == self.contains_spec(other),
    {
        (!other.normal || self.normal) && (!other.insert || self.insert) && (!other.visual
            || self.visual) && (!other.operator || self.operator) && (!other.command
            || self.command)
    }

    /// The modes of both.
    pub open spec fn union_spec(self, other: ModeSet) -> ModeSet {
        Self::mk(
            self.normal || other.normal,
            self.insert || other.insert,
            self.visual || other.visual,
            self.operator || other.operator,
            self.command || other.command,
        )
    }

    pub fn union(self, other: ModeSet) -> (r: ModeSet)
        ensures
            r == self.union_spec(other),
    {
        ModeSet {
            normal: self.normal || other.normal,
            insert: self.insert || other.insert,
            visual: self.visual || other.visual,
            operator: self.operator || other.operator,
            command: self.command || other.command,
        }
    }

    /// No mode at all.
    pub fn is_empty(&self) -> (r: bool)
        ensures
            r == (*self == Self::mk(false, false, false, false, false)),
    {
        !self.normal && !self.insert && !self.visual && !self.operator && !self.command
    }
}

/// Mode prefix named by `p` (`n`, `i`, `v`, `o`, `c`, or none).
pub open spec fn mode_prefix_of(p: Seq<char>) -> Option<MapModePrefix> {
    if p == "n"@ {
        Some(MapModePrefix::Normal)
    } else if p == "i"@ {
        Some(MapModePrefix::Insert)
    } else if p == "v"@ {
        Some(MapModePrefix::Visual)
    } else if p == "o"@ {
        Some(MapModePrefix::Operator)
    } else if p == "c"@ {
        Some(MapModePrefix::Command)
    } else if p == ""@ {
        Some(MapModePrefix::All)
    } else {
        None
    }
}

pub fn parse_mode_prefix(prefix: &str) -> (r: Option<MapModePrefix>)
    ensures
        r == mode_prefix_of(prefix@),
{
    if str_equal(prefix, "n") {
        Some(MapModePrefix::Normal)
    } else if str_equal(prefix, "i") {
        Some(MapModePrefix::Insert)
    } else if str_equal(prefix, "v") {
        Some(MapModePrefix::Visual)
    } else if str_equal(prefix, "o") {
        Some(MapModePrefix::Operator)
    } else if str_equal(prefix, "c") {
        Some(MapModePrefix::Command)
    } else if str_equal(prefix, "") {
        Some(MapModePrefix::All)
    } else {
        None
    }
}

/// The prefix letter of a mode (none for `All` and for the visual-only and
/// select-only prefixes, which have no command of their own here).
pub open spec fn mode_prefix_text(mode: MapModePrefix) -> Seq<char> {
    match mode {
        MapModePrefix::All => ""@,
        MapModePrefix::Normal => "n"@,
        MapModePrefix::Insert => "i"@,
        MapModePrefix::Visual => "v"@,
        MapModePrefix::Operator => "o"@,
        MapModePrefix::Command => "c"@,
        _ => ""@,
    }
}

pub fn mode_prefix_str(mode: MapModePrefix) -> (r: &'static str)
    ensures
        r@ == mode_prefix_text(mode),
{
    match mode {
        MapModePrefix::All => "",
        MapModePrefix::Normal => "n",
        MapModePrefix::Insert => "i",
        MapModePrefix::Visual => "v",
        MapModePrefix::Operator => "o",
        MapModePrefix::Command => "c",
        _ => "",
    }
}

/// Dialog label of a mode: `All` shows `N V O`; unknown prefixes show `?`.
pub open spec fn mode_prefix_label(mode: MapModePrefix) -> Seq<char> {
    match mode {
        MapModePrefix::All => "N V O"@,
        MapModePrefix::Normal => "N"@,
        MapModePrefix::Insert => "I"@,
        MapModePrefix::Visual => "V"@,
        MapModePrefix::Operator => "O"@,
        MapModePrefix::Command => "C"@,
        _ => "?"@,
    }
}

pub fn mode_prefix_display(mode: MapModePrefix) -> (r: &'static str)
    ensures
        r@ == mode_prefix_label(mode),
{
    match mode {
        MapModePrefix::All => "N V O",
        MapModePrefix::Normal => "N",
        MapModePrefix::Insert => "I",
        MapModePrefix::Visual => "V",
        MapModePrefix::Operator => "O",
        MapModePrefix::Command => "C",
        _ => "?",
    }
}

/// The modes a prefix covers: `All` is normal + visual + operator-pending.
pub open spec fn modes_of_prefix(prefix: MapModePrefix) -> ModeSet {
    match prefix {
        MapModePrefix::All => ModeSet::mk(true, false, true, true, false),
        MapModePrefix::Normal => ModeSet::mk(true, false, false, false, false),
        MapModePrefix::Insert => ModeSet::mk(false, true, false, false, false),
        MapModePrefix::Visual => ModeSet::mk(false, false, true, false, false),
        MapModePrefix::Operator => ModeSet::mk(false, false, false, true, false),
        MapModePrefix::Command => ModeSet::mk(false, false, false, false, true),
        _ => ModeSet::mk(false, false, false, false, false),
    }
}

pub fn mode_set_from_prefix(prefix: MapModePrefix) -> (r: ModeSet)
    ensures
        r == modes_of_prefix(prefix),
{
    match prefix {
        MapModePrefix::All => ModeSet::nvo(),
        MapModePrefix::Normal => ModeSet::normal(),
        MapModePrefix::Insert => ModeSet::insert(),
        MapModePrefix::Visual => ModeSet::visual(),
        MapModePrefix::Operator => ModeSet::operator(),
        MapModePrefix::Command => ModeSet::command(),
        _ => ModeSet::empty(),
    }
}

/// The fewest prefixes covering `m`: normal + visual + operator-pending
/// collapse to `All` (with `Insert` added when insert mode is in too);
/// otherwise one prefix per mode; command mode last.
pub open spec fn prefixes_of_modes(m: ModeSet) -> Seq<MapModePrefix> {
    let nvo = m.normal && m.visual && m.operator;
    let head = if nvo && !m.insert {
        seq![MapModePrefix::All]
    } else if nvo && m.insert {
        seq![MapModePrefix::All, MapModePrefix::Insert]
    } else {
        (if m.normal {
            seq![MapModePrefix::Normal]
        } else {
            seq![]
        }) + (if m.insert {
            seq![MapModePrefix::Insert]
        } else {
            seq![]
        }) + (if m.visual {
            seq![MapModePrefix::Visual]
        } else {
            seq![]
        }) + (if m.operator {
            seq![MapModePrefix::Operator]
        } else {
            seq![]
        })
    };
    if m.command {
        head.push(MapModePrefix::Command)
    } else {
        head
    }
}

/// The mode set of any prefix but the visual-only and select-only ones is
/// written back as that prefix alone.
pub proof fn lemma_prefix_mode_set_round_trip(prefix: MapModePrefix)
    requires
        prefix != MapModePrefix::VisualOnly,
        prefix != MapModePrefix::SelectOnly,
    ensures
        prefixes_of_modes(modes_of_prefix(prefix)) == seq![prefix],
{
    let m = modes_of_prefix(prefix);
    if prefix == MapModePrefix::Normal {
        assert(seq![MapModePrefix::Normal] + seq![] + seq![] + seq![] =~= seq![MapModePrefix::Normal]);
    } else if prefix == MapModePrefix::Insert {
        assert(seq![] + seq![MapModePrefix::Insert] + seq![] + seq![] =~= seq![MapModePrefix::Insert]);
    } else if prefix == MapModePrefix::Visual {
        assert(seq![] + seq![] + seq![MapModePrefix::Visual] + seq![] =~= seq![MapModePrefix::Visual]);
    } else if prefix == MapModePrefix::Operator {
        assert(seq![] + seq![] + seq![] + seq![MapModePrefix::Operator] =~= seq![MapModePrefix::Operator]);
    } else if prefix == MapModePrefix::Command {
        assert(Seq::<MapModePrefix>::empty() + seq![] + seq![] + seq![] =~= Seq::<MapModePrefix>::empty());
        assert(Seq::<MapModePrefix>::empty().push(MapModePrefix::Command) =~= seq![MapModePrefix::Command]);
    }
}

pub fn mode_prefixes_from_set(modes: ModeSet) -> (r: Vec<MapModePrefix>)
    ensures
        r@ == prefixes_of_modes(modes),
{
    let has_all_nvo = modes.contains(ModeSet::nvo());
    let mut prefixes: Vec<MapModePrefix> = Vec::new();
    if has_all_nvo && !modes.insert {
        prefixes.push(MapModePrefix::All);
    } else if has_all_nvo && modes.insert {
        prefixes.push(MapModePrefix::All);
        prefixes.push(MapModePrefix::Insert);
    } else {
        if modes.normal {
            prefixes.push(MapModePrefix::Normal);
        }
        if modes.insert {
            prefixes.push(MapModePrefix::Insert);
        }
        if modes.visual {
            prefixes.push(MapModePrefix::Visual);
        }
        if modes.operator {
            prefixes.push(MapModePrefix::Operator);
        }
    }
    let ghost head = prefixes@;
    if modes.command {
        prefixes.push(MapModePrefix::Command);
    }
    proof {
        let nvo = modes.normal && modes.visual && modes.operator;
        if !nvo {
            assert(head =~= (if modes.normal {
                seq![MapModePrefix::Normal]
            } else {
                seq![]
            }) + (if modes.insert {
                seq![MapModePrefix::Insert]
            } else {
                seq![]
            }) + (if modes.visual {
                seq![MapModePrefix::Visual]
            } else {
                seq![]
            }) + (if modes.operator {
                seq![MapModePrefix::Operator]
            } else {
                seq![]
            }));
        }
        assert(prefixes@ =~= prefixes_of_modes(modes));
    }
    prefixes
}

/// A mapping command: `lhs` mapped to `rhs` in some modes.
#[derive(Debug, Clone, PartialEq, Eq)]
pub struct ParsedMapping {
    pub lhs: String,
    pub rhs: String,
    pub modes: MapModePrefix,
    pub kind: MappingKind,
}

/// A mapping line: its preset (none for a user mapping), whether it is
/// enabled, and the mapping.
#[derive(Debug, Clone)]
pub struct MappingPayload {
    pub preset_id: Option<String>,
    pub enabled: bool,
    pub parsed: ParsedMapping,
}

/// One line of the config file.
#[derive(Debug, Clone)]
pub enum ConfigLine {
    Comment(String),
    BlankLine,
    Mapping(Box<MappingPayload>),
    Setting(String),
    Leader(String),
    /// Unrecognized lines, kept verbatim.
    Other(String),
}

/// The config file, line by line.
#[derive(Debug, Clone)]
pub struct ConfigDocument {
    pub lines: Vec<ConfigLine>,
}

/// The text of a `Setting` line, if the line is one.
pub open spec fn setting_text(l: ConfigLine) -> Option<Seq<char>> {
    match l {
        ConfigLine::Setting(t) => Some(t@),
        _ => None,
    }
}

/// The `timeoutlen` value of the first setting line that gives one.
pub open spec fn first_timeoutlen(ls: Seq<ConfigLine>) -> Option<u32>
    decreases ls.len(),
{
    if ls.len() == 0 {
        None
    } else {
        match setting_text(ls[0]) {
            Some(t) if timeoutlen_value(t).is_some() => timeoutlen_value(t),
            _ => first_timeoutlen(ls.drop_first()),
        }
    }
}

/// Index of the first setting line that is a `timeoutlen` setting.
pub open spec fn first_timeoutlen_line(ls: Seq<ConfigLine>, i: int) -> Option<int>
    decreases ls.len() - i,
{
    if i >= ls.len() || i < 0 {
        None
    } else if setting_text(ls[i]) matches Some(t) && timeoutlen_setting(t) {
        Some(i)
    } else {
        first_timeoutlen_line(ls, i + 1)
    }
}

/// Index of the first leader line.
pub open spec fn first_leader_line(ls: Seq<ConfigLine>, i: int) -> Option<int>
    decreases ls.len() - i,
{
    if i >= ls.len() || i < 0 {
        None
    } else if ls[i] is Leader {
        Some(i)
    } else {
        first_leader_line(ls, i + 1)
    }
}

/// `set timeoutlen=<ms>`.
pub open spec fn timeoutlen_line(ms: u32) -> Seq<char> {
    "set timeoutlen="@ + decimal(ms as nat)
}

impl ConfigDocument {
    /// Append an enabled user mapping.
    pub fn add_user_mapping(&mut self, mapping: ParsedMapping)
        ensures
            final(self).lines@.len() == old(self).lines@.len() + 1,
            final(self).lines@.take(old(self).lines@.len() as int) == old(self).lines@,
            final(self).lines@.last() matches ConfigLine::Mapping(p) && p.preset_id.is_none()
                && p.enabled && p.parsed == mapping,
    {
        self.lines.push(
            ConfigLine::Mapping(Box::new(MappingPayload { preset_id: None, enabled: true, parsed: mapping })),
        );
        proof {
            assert(self.lines@.take(old(self).lines@.len() as int) =~= old(self).lines@);
        }
    }

    /// The `timeoutlen` given by the first setting line that gives one.
    pub fn timeoutlen(&self) -> (r: Option<u32>)
        ensures
            r == first_timeoutlen(self.lines@),
    {
        proof {
            assert(self.lines@.skip(0) =~= self.lines@);
        }
        let mut i: usize = 0;
        while i < self.lines.len()
            invariant
                i <= self.lines@.len(),
                first_timeoutlen(self.lines@) == first_timeoutlen(self.lines@.skip(i as int)),
            decreases self.lines@.len() - i,
        {
            proof {
                assert(self.lines@.skip(i as int).drop_first() =~= self.lines@.skip(i + 1));
                assert(self.lines@.skip(i as int)[0] == self.lines@[i as int]);
            }
            if let ConfigLine::Setting(text) = &self.lines[i] {
                let v = parse_timeoutlen_value(text.as_str());
                if v.is_some() {
                    return v;
                }
            }
            i = i + 1;
        }
        proof {
            assert(self.lines@.skip(i as int) =~= Seq::<ConfigLine>::empty());
        }
        None
    }

    /// Rewrite the first `timeoutlen` setting line as `set timeoutlen=<ms>`,
    /// or insert such a line after the first leader line (at the top when
    /// there is none).
    pub fn set_timeoutlen(&mut self, ms: u32)
        ensures
            match first_timeoutlen_line(old(self).lines@, 0) {
                Some(i) => final(self).lines@.len() == old(self).lines@.len() && (
                forall|j: int|
                    0 <= j < old(self).lines@.len() && j != i ==> #[trigger] final(self).lines@[j]
                        == old(self).lines@[j]) && setting_text(final(self).lines@[i]) == Some(
                    timeoutlen_line(ms),
                ),
                None => {
                    let at = match first_leader_line(old(self).lines@, 0) {
                        Some(k) => k + 1,
                        None => 0,
                    };
                    &&& final(self).lines@.len() == old(self).lines@.len() + 1
                    &&& final(self).lines@.take(at) == old(self).lines@.take(at)
                    &&& final(self).lines@.skip(at + 1) == old(self).lines@.skip(at)
                    &&& setting_text(final(self).lines@[at]) == Some(timeoutlen_line(ms))
                },
            },
    {
        let mut text = String::new();
        text.append("set timeoutlen=");
        push_decimal(&mut text, ms as u64);
        proof {
            lemma_first_timeoutlen_line(self.lines@, 0);
            lemma_first_leader_line(self.lines@, 0);
        }
        match find_timeoutlen_line(&self.lines) {
            Some(i) => {
                self.lines.set(i, ConfigLine::Setting(text));
            },
            None => {
                let _n = self.lines.len();
                let at = match find_leader_line(&self.lines) {
                    Some(k) => k + 1,
                    None => 0,
                };
                let ghost before = self.lines@;
                self.lines.insert(at, ConfigLine::Setting(text));
                proof {
                    assert(self.lines@.take(at as int) =~= before.take(at as int));
                    assert(self.lines@.skip(at + 1) =~= before.skip(at as int));
                }
            },
        }
    }
}

fn find_timeoutlen_line(lines: &Vec<ConfigLine>) -> (r: Option<usize>)
    ensures
        match r {
            Some(i) => first_timeoutlen_line(lines@, 0) == Some(i as int),
            None => first_timeoutlen_line(lines@, 0).is_none(),
        },
{
    let mut i: usize = 0;
    while i < lines.len()
        invariant
            i <= lines@.len(),
            first_timeoutlen_line(lines@, 0) == first_timeoutlen_line(lines@, i as int),
        decreases lines@.len() - i,
    {
        let found = match &lines[i] {
            ConfigLine::Setting(t) => is_timeoutlen_setting(t.as_str()),
            _ => false,
        };
        if found {
            return Some(i);
        }
        i = i + 1;
    }
    None
}

fn find_leader_line(lines: &Vec<ConfigLine>) -> (r: Option<usize>)
    ensures
        match r {
            Some(i) => first_leader_line(lines@, 0) == Some(i as int),
            None => first_leader_line(lines@, 0).is_none(),
        },
{
    let mut i: usize = 0;
    while i < lines.len()
        invariant
            i <= lines@.len(),
            first_leader_line(lines@, 0) == first_leader_line(lines@, i as int),
        decreases lines@.len() - i,
    {
        if let ConfigLine::Leader(_) = &lines[i] {
            return Some(i);
        }
        i = i + 1;
    }
    None
}

pub proof fn lemma_first_timeoutlen_line(ls: Seq<ConfigLine>, i: int)
    requires
        0 <= i,
    ensures
        first_timeoutlen_line(ls, i) matches Some(k) ==> i <= k < ls.len(),
    decreases ls.len() - i,
{
    if i < ls.len() {
        lemma_first_timeoutlen_line(ls, i + 1);
    }
}

pub proof fn lemma_first_leader_line(ls: Seq<ConfigLine>, i: int)
    requires
        0 <= i,
    ensures
        first_leader_line(ls, i) matches Some(k) ==> i <= k < ls.len() && ls[k] is Leader,
    decreases ls.len() - i,
{
    if i < ls.len() {
        lemma_first_leader_line(ls, i + 1);
    }
}

/// Spellings of a `timeoutlen` setting, `tm` being its abbreviation.
pub open spec fn timeoutlen_prefix(t: Seq<char>) -> Option<Seq<char>> {
    if starts_with(t, "set timeoutlen="@) {
        Some(t.skip("set timeoutlen="@.len() as int))
    } else if starts_with(t, "se timeoutlen="@) {
        Some(t.skip("se timeoutlen="@.len() as int))
    } else if starts_with(t, "set tm="@) {
        Some(t.skip("set tm="@.len() as int))
    } else if starts_with(t, "se tm="@) {
        Some(t.skip("se tm="@.len() as int))
    } else {
        None
    }
}

/// A setting line (trimmed) that sets `timeoutlen`.
pub open spec fn timeoutlen_setting(text: Seq<char>) -> bool {
    timeoutlen_prefix(trim_spec(text)).is_some()
}

/// The value a `timeoutlen` setting line gives, as `u32::from_str` reads
/// the trimmed text after `=`.
pub open spec fn timeoutlen_value(text: Seq<char>) -> Option<u32> {
    match timeoutlen_prefix(trim_spec(text)) {
        Some(rest) => u32_of(trim_spec(rest)),
        None => None,
    }
}

/// The text after the `timeoutlen` prefix of `trimmed`, if it has one.
fn strip_timeoutlen_prefix(trimmed: &str) -> (r: Option<&str>)
    ensures
        r.is_none() <==> timeoutlen_prefix(trimmed@).is_none(),
        r matches Some(s) ==> s@ == timeoutlen_prefix(trimmed@)->0,
{
    let total = trimmed.unicode_len();
    if str_starts_with(trimmed, "set timeoutlen=") {
        let k = "set timeoutlen=".unicode_len();
        proof {
            assert(trimmed@.skip(k as int) =~= trimmed@.subrange(k as int, total as int));
        }
        return Some(trimmed.substring_char(k, total));
    }
    if str_starts_with(trimmed, "se timeoutlen=") {
        let k = "se timeoutlen=".unicode_len();
        proof {
            assert(trimmed@.skip(k as int) =~= trimmed@.subrange(k as int, total as int));
        }
        return Some(trimmed.substring_char(k, total));
    }
    if str_starts_with(trimmed, "set tm=") {
        let k = "set tm=".unicode_len();
        proof {
            assert(trimmed@.skip(k as int) =~= trimmed@.subrange(k as int, total as int));
        }
        return Some(trimmed.substring_char(k, total));
    }
    if str_starts_with(trimmed, "se tm=") {
        let k = "se tm=".unicode_len();
        proof {
            assert(trimmed@.skip(k as int) =~= trimmed@.subrange(k as int, total as int));
        }
        return Some(trimmed.substring_char(k, total));
    }
    None
}

/// Whether `text` (trimmed) is a `timeoutlen` setting.
pub fn is_timeoutlen_setting(text: &str) -> (r: bool)
    ensures
        r == timeoutlen_setting(text@),
{
    strip_timeoutlen_prefix(trim(text)).is_some()
}

/// The value of a `timeoutlen` setting line, if it is one with a valid
/// number.
pub fn parse_timeoutlen_value(text: &str) -> (r: Option<u32>)
    ensures
        r == timeoutlen_value(text@),
{
    match strip_timeoutlen_prefix(trim(text)) {
        Some(rest) => parse_u32(trim(rest)),
        None => None,
    }
}

/// Value of the decimal digits `d`.
pub open spec fn digits_value(d: Seq<char>) -> nat
    decreases d.len(),
{
    if d.len() == 0 {
        0
    } else {
        digits_value(d.drop_last()) * 10 + ((d.last() as u32) - ('0' as u32)) as nat
    }
}

pub open spec fn all_digits(d: Seq<char>) -> bool {
    forall|i: int| 0 <= i < d.len() ==> '0' <= #[trigger] d[i] <= '9'
}

/// `u32::from_str`: an optional `+`, then one or more decimal digits whose
/// value fits in `u32`.
pub open spec fn u32_of(s: Seq<char>) -> Option<u32> {
    let d = if s.len() > 0 && s[0] == '+' {
        s.drop_first()
    } else {
        s
    };
    if d.len() > 0 && all_digits(d) && digits_value(d) <= u32::MAX {
        Some(digits_value(d) as u32)
    } else {
        None
    }
}

proof fn lemma_digits_value_grows(d: Seq<char>, k: int)
    requires
        0 <= k <= d.len(),
        all_digits(d),
    ensures
        digits_value(d.take(k)) <= digits_value(d),
    decreases d.len() - k,
{
    if k < d.len() {
        lemma_digits_value_grows(d, k + 1);
        assert(d.take(k + 1).drop_last() =~= d.take(k));
        assert('0' <= d[k] <= '9');
    } else {
        assert(d.take(k) =~= d);
    }
}

/// `s.parse::<u32>()`, as an `Option`.
pub fn parse_u32(s: &str) -> (r: Option<u32>)
    ensures
        r == u32_of(s@),
{
    let v = chars_of(s);
    let start: usize = if v.len() > 0 && v[0] == '+' {
        1
    } else {
        0
    };
    let ghost d = if s@.len() > 0 && s@[0] == '+' {
        s@.drop_first()
    } else {
        s@
    };
    proof {
        assert(d =~= s@.skip(start as int));
    }
    if start >= v.len() {
        proof {
            assert(d.len() == 0);
        }
        return None;
    }
    let mut acc: u64 = 0;
    let mut i = start;
    proof {
        assert(d.take(0) =~= Seq::<char>::empty());
    }
    while i < v.len()
        invariant
            v@ == s@,
            d == s@.skip(start as int),
            d == (if s@.len() > 0 && s@[0] == '+' {
                s@.drop_first()
            } else {
                s@
            }),
            start <= i <= v@.len(),
            all_digits(d.take(i - start)),
            acc == digits_value(d.take(i - start)),
            acc <= u32::MAX,
        decreases v@.len() - i,
    {
        let c = v[i];
        if c < '0' || c > '9' {
            proof {
                assert(d[i - start] == c);
                assert(!all_digits(d));
            }
            return None;
        }
        let digit = (c as u32 - '0' as u32) as u64;
        let next = acc * 10 + digit;
        proof {
            assert(d.take(i - start + 1).drop_last() =~= d.take(i - start));
            assert(d.take(i - start + 1).last() == c);
        }
        if next > 0xFFFF_FFFF {
            proof {
                assert(digits_value(d.take(i - start + 1)) == next);
                if all_digits(d) {
                    lemma_digits_value_grows(d, i - start + 1);
                }
            }
            return None;
        }
        acc = next;
        i = i + 1;
    }
    proof {
        assert(d.take(i - start) =~= d);
    }
    Some(acc as u32)
}

/// The Vim command of a mapping: prefix, `noremap` or `map`, then the two
/// sides separated by spaces.
pub open spec fn vim_command_of(lhs: Seq<char>, rhs: Seq<char>, modes: MapModePrefix, kind: MappingKind) -> Seq<char> {
    mode_prefix_text(modes) + (if kind == MappingKind::NonRecursive {
        "noremap"@
    } else {
        "map"@
    }) + " "@ + lhs + " "@ + rhs
}

pub fn mapping_to_vim_command(m: &ParsedMapping) -> (r: String)
    ensures
        r@ == vim_command_of(m.lhs@, m.rhs@, m.modes, m.kind),
{
    let mut out = String::new();
    out.append(mode_prefix_str(m.modes));
    match m.kind {
        MappingKind::NonRecursive => out.append("noremap"),
        MappingKind::Recursive => out.append("map"),
    }
    out.append(" ");
    out.append(m.lhs.as_str());
    out.append(" ");
    out.append(m.rhs.as_str());
    out
}

} // verus!
