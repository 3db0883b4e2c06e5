//! Query and edit service over the config document for the mapping dialog:
//! user mappings grouped into rows, preset rows, and the edits the dialog
//! makes (add, remove, rename, change modes, toggle presets, timeout).

use crate::config_types::{
    first_timeoutlen, first_timeoutlen_line, first_leader_line, mode_prefix_display,
    mode_prefix_label, mode_prefixes_from_set, mode_set_from_prefix, modes_of_prefix,
    prefixes_of_modes, setting_text, timeoutlen_line, ConfigDocument, ConfigLine, MapModePrefix,
    MappingKind, MappingPayload, ModeSet, ParsedMapping,
};
use crate::parser::{line_view, line_views, mapping_view, parse_config, parse_lines, LineView};
use crate::presets::{presets, shipped_presets};
use crate::strs::{contains_seq, lines_of, str_contains, str_equal, str_to_lowercase, unicode_lowercase};
use vstd::prelude::*;

verus! {

broadcast use vstd::seq::group_seq_axioms;

/// Indices of the config lines that form one row of user mappings.
#[derive(Debug, Clone)]
pub struct MappingGroupId(pub Vec<usize>);

/// Index of the config line of one preset.
#[derive(Debug, Clone)]
pub struct PresetId(pub usize);

/// A row of user mappings: the lines sharing lhs, rhs and kind, with the
/// modes of the enabled ones.
#[derive(Debug, Clone)]
pub struct UserMappingRow {
    pub id: MappingGroupId,
    pub lhs: String,
    pub rhs: String,
    pub kind: MappingKind,
    pub modes: ModeSet,
}

/// A row of presets.
#[derive(Debug, Clone)]
pub struct PresetRow {
    pub id: PresetId,
    pub lhs: String,
    pub rhs: String,
    pub modes_display: String,
    pub category: &'static str,
    pub enabled: bool,
}

/// The service over one config document.
pub struct MappingService {
    doc: ConfigDocument,
}

/// `(line indices, lhs, rhs, kind, modes)` of a user row.
pub type RowView = (Seq<usize>, Seq<char>, Seq<char>, MappingKind, ModeSet);

pub open spec fn row_view(r: UserMappingRow) -> RowView {
    (r.id.0@, r.lhs@, r.rhs@, r.kind, r.modes)
}

pub open spec fn row_views(v: Seq<UserMappingRow>) -> Seq<RowView> {
    v.map_values(|r: UserMappingRow| row_view(r))
}

/// No mode.
pub open spec fn no_modes() -> ModeSet {
    ModeSet::mk(false, false, false, false, false)
}

/// A mapping passes the search when the search is empty or either side,
/// lowercased, contains it.
pub open spec fn passes_search(lhs: Seq<char>, rhs: Seq<char>, search_lower: Seq<char>) -> bool {
    search_lower.len() == 0 || contains_seq(unicode_lowercase(lhs), search_lower) || contains_seq(
        unicode_lowercase(rhs),
        search_lower,
    )
}

/// Index of the first row, from `i` on, with this lhs, rhs and kind.
pub open spec fn find_row(rows: Seq<RowView>, lhs: Seq<char>, rhs: Seq<char>, kind: MappingKind, i: int) -> Option<int>
    decreases rows.len() - i,
{
    if i >= rows.len() || i < 0 {
        None
    } else if rows[i].1 == lhs && rows[i].2 == rhs && rows[i].3 == kind {
        Some(i)
    } else {
        find_row(rows, lhs, rhs, kind, i + 1)
    }
}

/// Rows after taking in line `k`: a user mapping passing the search joins
/// the row of its lhs, rhs and kind (adding its modes when enabled), or
/// starts a new row.
pub open spec fn group_step(rows: Seq<RowView>, k: int, line: ConfigLine, search_lower: Seq<char>) -> Seq<RowView> {
    match line {
        ConfigLine::Mapping(p) => {
            let m = p.parsed;
            if p.preset_id.is_none() && passes_search(m.lhs@, m.rhs@, search_lower) {
                match find_row(rows, m.lhs@, m.rhs@, m.kind, 0) {
                    Some(g) => rows.update(
                        g,
                        (
                            rows[g].0.push(k as usize),
                            rows[g].1,
                            rows[g].2,
                            rows[g].3,
                            if p.enabled {
                                rows[g].4.union_spec(modes_of_prefix(m.modes))
                            } else {
                                rows[g].4
                            },
                        ),
                    ),
                    None => rows.push(
                        (
                            seq![k as usize],
                            m.lhs@,
                            m.rhs@,
                            m.kind,
                            if p.enabled {
                                modes_of_prefix(m.modes)
                            } else {
                                no_modes()
                            },
                        ),
                    ),
                }
            } else {
                rows
            }
        },
        _ => rows,
    }
}

/// Rows of the first `k` lines.
pub open spec fn group_rows(ls: Seq<ConfigLine>, search_lower: Seq<char>, k: int) -> Seq<RowView>
    decreases k,
{
    if k <= 0 {
        seq![]
    } else {
        group_step(group_rows(ls, search_lower, k - 1), k - 1, ls[k - 1], search_lower)
    }
}

/// `(line index, lhs, rhs, mode label, category, enabled)` of a preset row.
pub type PresetRowView = (usize, Seq<char>, Seq<char>, Seq<char>, Seq<char>, bool);

pub open spec fn preset_row_view(r: PresetRow) -> PresetRowView {
    (r.id.0, r.lhs@, r.rhs@, r.modes_display@, r.category@, r.enabled)
}

pub open spec fn preset_row_views(v: Seq<PresetRow>) -> Seq<PresetRowView> {
    v.map_values(|r: PresetRow| preset_row_view(r))
}

/// Category of the first shipped preset from `i` on with this lhs and rhs,
/// else `Custom`.
pub open spec fn category_from(lhs: Seq<char>, rhs: Seq<char>, i: int) -> Seq<char>
    decreases shipped_presets().len() - i,
{
    if i >= shipped_presets().len() || i < 0 {
        "Custom"@
    } else if shipped_presets()[i].0 == lhs && shipped_presets()[i].1 == rhs {
        shipped_presets()[i].3
    } else {
        category_from(lhs, rhs, i + 1)
    }
}

/// Preset rows of the first `k` lines: one per preset mapping line.
pub open spec fn preset_rows(ls: Seq<ConfigLine>, k: int) -> Seq<PresetRowView>
    decreases k,
{
    if k <= 0 {
        seq![]
    } else {
        let before = preset_rows(ls, k - 1);
        match ls[k - 1] {
            ConfigLine::Mapping(p) => if p.preset_id.is_some() {
                before.push(
                    (
                        (k - 1) as usize,
                        p.parsed.lhs@,
                        p.parsed.rhs@,
                        mode_prefix_label(p.parsed.modes),
                        category_from(p.parsed.lhs@, p.parsed.rhs@, 0),
                        p.enabled,
                    ),
                )
            } else {
                before
            },
            _ => before,
        }
    }
}

/// Line indices in nonincreasing order.
pub open spec fn nonincreasing(s: Seq<usize>) -> bool {
    forall|i: int, j: int| 0 <= i <= j < s.len() ==> s[i] >= s[j]
}

/// `ids` in nonincreasing order.
pub open spec fn sorted_desc(ids: Seq<usize>) -> Seq<usize> {
    choose|s: Seq<usize>| nonincreasing(s) && s.to_multiset() == ids.to_multiset()
}

/// `ls` after removing, one after the other, the line at each index of
/// `order` that is still in range.
pub open spec fn remove_each(ls: Seq<LineView>, order: Seq<usize>) -> Seq<LineView>
    decreases order.len(),
{
    if order.len() == 0 {
        ls
    } else {
        let i = order[0] as int;
        remove_each(
            if i < ls.len() {
                ls.remove(i)
            } else {
                ls
            },
            order.drop_first(),
        )
    }
}

/// A mapping line view with some fields replaced.
pub open spec fn with_lhs(v: LineView, lhs: Seq<char>) -> LineView {
    match v {
        LineView::Mapping(id, en, m) => LineView::Mapping(id, en, (lhs, m.1, m.2, m.3)),
        _ => v,
    }
}

pub open spec fn with_rhs(v: LineView, rhs: Seq<char>) -> LineView {
    match v {
        LineView::Mapping(id, en, m) => LineView::Mapping(id, en, (m.0, rhs, m.2, m.3)),
        _ => v,
    }
}

pub open spec fn with_enabled(v: LineView, en: bool) -> LineView {
    match v {
        LineView::Mapping(id, _, m) => LineView::Mapping(id, en, m),
        _ => v,
    }
}

/// Enabled user mapping lines of `(lhs, rhs, kind)` in each of `prefixes`.
pub open spec fn mode_lines(lhs: Seq<char>, rhs: Seq<char>, kind: MappingKind, prefixes: Seq<MapModePrefix>) -> Seq<LineView> {
    prefixes.map_values(|m: MapModePrefix| LineView::Mapping(None, true, (lhs, rhs, m, kind)))
}

/// A copy of `s` with the same contents.
fn copy_string(s: &String) -> (r: String)
    ensures
        r@ == s@,
{
    s.as_str().to_owned()
}

/// A copy of a mapping line with the same view.
fn copy_line(l: &ConfigLine) -> (r: ConfigLine)
    ensures
        line_view(r) == line_view(*l),
{
    match l {
        ConfigLine::Comment(s) => ConfigLine::Comment(copy_string(s)),
        ConfigLine::BlankLine => ConfigLine::BlankLine,
        ConfigLine::Mapping(p) => {
            let preset_id = match &p.preset_id {
                Some(id) => Some(copy_string(id)),
                None => None,
            };
            ConfigLine::Mapping(
                Box::new(
                    MappingPayload {
                        preset_id,
                        enabled: p.enabled,
                        parsed: ParsedMapping {
                            lhs: copy_string(&p.parsed.lhs),
                            rhs: copy_string(&p.parsed.rhs),
                            modes: p.parsed.modes,
                            kind: p.parsed.kind,
                        },
                    },
                ),
            )
        },
        ConfigLine::Setting(s) => ConfigLine::Setting(copy_string(s)),
        ConfigLine::Leader(s) => ConfigLine::Leader(copy_string(s)),
        ConfigLine::Other(s) => ConfigLine::Other(copy_string(s)),
    }
}

/// `ids` in nonincreasing order.
fn sort_desc(ids: &Vec<usize>) -> (r: Vec<usize>)
    ensures
        nonincreasing(r@),
        r@.to_multiset() == ids@.to_multiset(),
{
    broadcast use vstd::seq_lib::group_to_multiset_ensures;

    let mut out: Vec<usize> = Vec::new();
    let mut i: usize = 0;
    proof {
        assert(ids@.take(0) =~= Seq::<usize>::empty());
    }
    while i < ids.len()
        invariant
            i <= ids@.len(),
            nonincreasing(out@),
            out@.to_multiset() == ids@.take(i as int).to_multiset(),
        decreases ids@.len() - i,
    {
        let x = ids[i];
        let mut j: usize = 0;
        while j < out.len() && out[j] >= x
            invariant
                j <= out@.len(),
                forall|q: int| 0 <= q < j ==> #[trigger] out@[q] >= x,
            decreases out@.len() - j,
        {
            j = j + 1;
        }
        let ghost old_out = out@;
        out.insert(j, x);
        proof {
            assert(ids@.take(i + 1) =~= ids@.take(i as int).push(x));
            vstd::seq_lib::to_multiset_insert(old_out, j as int, x);
            vstd::seq_lib::to_multiset_build(ids@.take(i as int), x);
            assert forall|a: int, b: int| 0 <= a <= b < out@.len() implies out@[a] >= out@[b] by {
                if a < j && b > j {
                    assert(out@[a] == old_out[a]);
                    assert(out@[b] == old_out[b - 1]);
                } else if a < j && b == j {
                    assert(out@[a] == old_out[a]);
                } else if a < j {
                    assert(out@[a] == old_out[a]);
                    assert(out@[b] == old_out[b]);
                } else if a == j && b > j {
                    assert(out@[b] == old_out[b - 1]);
                    assert(!(old_out[j as int] >= x));
                    assert(old_out[j as int] >= old_out[b - 1]);
                } else if a > j {
                    assert(out@[a] == old_out[a - 1]);
                    assert(out@[b] == old_out[b - 1]);
                }
            }
        }
        i = i + 1;
    }
    proof {
        assert(ids@.take(ids@.len() as int) =~= ids@);
    }
    out
}

/// The sorted order is the one `sorted_desc` names.
proof fn lemma_sorted_desc(ids: Seq<usize>, s: Seq<usize>)
    requires
        nonincreasing(s),
        s.to_multiset() == ids.to_multiset(),
    ensures
        sorted_desc(ids) == s,
{
    let w = sorted_desc(ids);
    assert(nonincreasing(w) && w.to_multiset() == ids.to_multiset());
    let leq = |a: usize, b: usize| a >= b;
    assert(vstd::relations::total_ordering(leq));
    assert(vstd::relations::sorted_by(w, leq));
    assert(vstd::relations::sorted_by(s, leq));
    vstd::seq_lib::lemma_sorted_unique(w, s, leq);
}

/// Remove, in order, the lines at the indices of `order` still in range.
fn remove_lines(lines: &mut Vec<ConfigLine>, order: &Vec<usize>)
    ensures
        line_views(final(lines)@) == remove_each(line_views(old(lines)@), order@),
{
    let ghost target = remove_each(line_views(lines@), order@);
    let mut k: usize = 0;
    proof {
        assert(order@.skip(0) =~= order@);
    }
    while k < order.len()
        invariant
            k <= order@.len(),
            remove_each(line_views(lines@), order@.skip(k as int)) == target,
        decreases order@.len() - k,
    {
        let idx = order[k];
        let ghost before = lines@;
        proof {
            assert(order@.skip(k as int)[0] == idx);
            assert(order@.skip(k as int).drop_first() =~= order@.skip(k + 1));
        }
        if idx < lines.len() {
            lines.remove(idx);
            proof {
                assert(line_views(lines@) =~= line_views(before).remove(idx as int));
            }
        }
        k = k + 1;
    }
    proof {
        assert(order@.skip(k as int) =~= Seq::<usize>::empty());
    }
}

impl MappingService {
    /// The config lines.
    pub closed spec fn lines(&self) -> Seq<ConfigLine> {
        self.doc.lines@
    }

    /// The service over the config `text`.
    pub fn from_text(text: &str) -> (r: Self)
        ensures
            line_views(r.lines()) == parse_lines(lines_of(text@), None),
    {
        MappingService { doc: parse_config(text) }
    }

    /// Rows of user mappings passing a case-insensitive search (empty for
    /// all): lines with the same lhs, rhs and kind share a row, in order of
    /// first appearance.
    pub fn user_mappings(&self, search: &str) -> (r: Vec<UserMappingRow>)
        ensures
            row_views(r@) == group_rows(
                self.lines(),
                unicode_lowercase(search@),
                self.lines().len() as int,
            ),
    {
        let search_lower = str_to_lowercase(search);
        let sl = search_lower.as_str();
        let ghost ls = self.doc.lines@;
        let mut groups: Vec<UserMappingRow> = Vec::new();
        let mut i: usize = 0;
        proof {
            assert(row_views(groups@) =~= Seq::<RowView>::empty());
        }
        while i < self.doc.lines.len()
            invariant
                ls == self.doc.lines@,
                sl@ == unicode_lowercase(search@),
                i <= ls.len(),
                row_views(groups@) == group_rows(ls, sl@, i as int),
            decreases ls.len() - i,
        {
            if let ConfigLine::Mapping(payload) = &self.doc.lines[i] {
                let parsed = &payload.parsed;
                let passes = if payload.preset_id.is_none() {
                    sl.unicode_len() == 0 || str_contains(str_to_lowercase(parsed.lhs.as_str()).as_str(), sl)
                        || str_contains(str_to_lowercase(parsed.rhs.as_str()).as_str(), sl)
                } else {
                    false
                };
                if passes {
                    let add = if payload.enabled {
                        mode_set_from_prefix(parsed.modes)
                    } else {
                        ModeSet::empty()
                    };
                    match find_group(&groups, parsed) {
                        Some(g) => {
                            let ghost before = groups@;
                            let mut ids = groups[g].id.0.clone();
                            proof {
                                assert(ids@ == before[g as int].id.0@);
                            }
                            ids.push(i);
                            let modes = if payload.enabled {
                                groups[g].modes.union(add)
                            } else {
                                groups[g].modes
                            };
                            let row = UserMappingRow {
                                id: MappingGroupId(ids),
                                lhs: copy_string(&groups[g].lhs),
                                rhs: copy_string(&groups[g].rhs),
                                kind: groups[g].kind,
                                modes,
                            };
                            groups.set(g, row);
                            proof {
                                assert(row_views(groups@) =~= row_views(before).update(g as int, row_view(row)));
                            }
                        },
                        None => {
                            let ghost before = groups@;
                            let mut ids: Vec<usize> = Vec::new();
                            ids.push(i);
                            let row = UserMappingRow {
                                id: MappingGroupId(ids),
                                lhs: copy_string(&parsed.lhs),
                                rhs: copy_string(&parsed.rhs),
                                kind: parsed.kind,
                                modes: add,
                            };
                            groups.push(row);
                            proof {
                                assert(ids@ =~= seq![i]);
                                assert(row_views(groups@) =~= row_views(before).push(row_view(row)));
                            }
                        },
                    }
                }
            }
            i = i + 1;
        }
        groups
    }

    /// Preset rows in document order.
    pub fn preset_mappings(&self) -> (r: Vec<PresetRow>)
        ensures
            preset_row_views(r@) == preset_rows(self.lines(), self.lines().len() as int),
    {
        let ghost ls = self.doc.lines@;
        let table = presets();
        let mut rows: Vec<PresetRow> = Vec::new();
        let mut i: usize = 0;
        proof {
            assert(preset_row_views(rows@) =~= Seq::<PresetRowView>::empty());
        }
        while i < self.doc.lines.len()
            invariant
                ls == self.doc.lines@,
                crate::presets::preset_views(table@) == shipped_presets(),
                i <= ls.len(),
                preset_row_views(rows@) == preset_rows(ls, i as int),
            decreases ls.len() - i,
        {
            if let ConfigLine::Mapping(payload) = &self.doc.lines[i] {
                if payload.preset_id.is_some() {
                    let parsed = &payload.parsed;
                    let category = find_preset_category(&table, parsed);
                    let ghost before = rows@;
                    let row = PresetRow {
                        id: PresetId(i),
                        lhs: copy_string(&parsed.lhs),
                        rhs: copy_string(&parsed.rhs),
                        modes_display: mode_prefix_display(parsed.modes).to_owned(),
                        category,
                        enabled: payload.enabled,
                    };
                    rows.push(row);
                    proof {
                        assert(preset_row_views(rows@) =~= preset_row_views(before).push(preset_row_view(row)));
                    }
                }
            }
            i = i + 1;
        }
        rows
    }

    /// The `timeoutlen` the config sets, if any.
    pub fn timeoutlen(&self) -> (r: Option<u32>)
        ensures
            r == first_timeoutlen(self.lines()),
    {
        self.doc.timeoutlen()
    }

    /// Append an enabled normal-mode user mapping.
    pub fn add_mapping(&mut self, lhs: &str, rhs: &str, kind: MappingKind)
        ensures
            line_views(final(self).lines()) == line_views(old(self).lines()).push(
                LineView::Mapping(None, true, (lhs@, rhs@, MapModePrefix::Normal, kind)),
            ),
    {
        let parsed = ParsedMapping { lhs: lhs.to_owned(), rhs: rhs.to_owned(), modes: MapModePrefix::Normal, kind };
        let ghost before = self.doc.lines@;
        self.doc.add_user_mapping(parsed);
        proof {
            assert(self.doc.lines@ =~= before.push(self.doc.lines@.last()));
            assert(line_views(self.doc.lines@) =~= line_views(before).push(line_view(self.doc.lines@.last())));
        }
    }

    /// Remove the lines of a row, highest index first.
    pub fn remove_mapping(&mut self, id: &MappingGroupId)
        ensures
            line_views(final(self).lines()) == remove_each(line_views(old(self).lines()), sorted_desc(id.0@)),
    {
        let order = sort_desc(&id.0);
        proof {
            lemma_sorted_desc(id.0@, order@);
        }
        remove_lines(&mut self.doc.lines, &order);
    }

    /// Set the lhs of every mapping line of a row.
    pub fn edit_lhs(&mut self, id: &MappingGroupId, new_lhs: &str)
        ensures
            line_views(final(self).lines()).len() == old(self).lines().len(),
            forall|j: int|
                0 <= j < old(self).lines().len() ==> #[trigger] line_views(final(self).lines())[j] == if id.0@.contains(
                    j as usize,
                ) {
                    with_lhs(line_view(old(self).lines()[j]), new_lhs@)
                } else {
                    line_view(old(self).lines()[j])
                },
    {
        self.edit_side(id, new_lhs, true);
    }

    /// Set the rhs of every mapping line of a row.
    pub fn edit_rhs(&mut self, id: &MappingGroupId, new_rhs: &str)
        ensures
            line_views(final(self).lines()).len() == old(self).lines().len(),
            forall|j: int|
                0 <= j < old(self).lines().len() ==> #[trigger] line_views(final(self).lines())[j] == if id.0@.contains(
                    j as usize,
                ) {
                    with_rhs(line_view(old(self).lines()[j]), new_rhs@)
                } else {
                    line_view(old(self).lines()[j])
                },
    {
        self.edit_side(id, new_rhs, false);
    }

    fn edit_side(&mut self, id: &MappingGroupId, text: &str, lhs_side: bool)
        ensures
            line_views(final(self).lines()).len() == old(self).lines().len(),
            forall|j: int|
                0 <= j < old(self).lines().len() ==> #[trigger] line_views(final(self).lines())[j] == if id.0@.contains(
                    j as usize,
                ) {
                    if lhs_side {
                        with_lhs(line_view(old(self).lines()[j]), text@)
                    } else {
                        with_rhs(line_view(old(self).lines()[j]), text@)
                    }
                } else {
                    line_view(old(self).lines()[j])
                },
    {
        let ghost start = self.doc.lines@;
        let mut k: usize = 0;
        while k < id.0.len()
            invariant
                k <= id.0@.len(),
                self.doc.lines@.len() == start.len(),
                forall|j: int|
                    0 <= j < start.len() ==> #[trigger] line_views(self.doc.lines@)[j] == if id.0@.take(
                        k as int,
                    ).contains(j as usize) {
                        if lhs_side {
                            with_lhs(line_view(start[j]), text@)
                        } else {
                            with_rhs(line_view(start[j]), text@)
                        }
                    } else {
                        line_view(start[j])
                    },
            decreases id.0@.len() - k,
        {
            let idx = id.0[k];
            let ghost before = self.doc.lines@;
            proof {
                assert(id.0@.take(k + 1) =~= id.0@.take(k as int).push(idx));
            }
            if idx < self.doc.lines.len() {
                let new_line = match &self.doc.lines[idx] {
                    ConfigLine::Mapping(p) => {
                        let preset_id = match &p.preset_id {
                            Some(s) => Some(copy_string(s)),
                            None => None,
                        };
                        let (lhs, rhs) = if lhs_side {
                            (text.to_owned(), copy_string(&p.parsed.rhs))
                        } else {
                            (copy_string(&p.parsed.lhs), text.to_owned())
                        };
                        Some(
                            ConfigLine::Mapping(
                                Box::new(
                                    MappingPayload {
                                        preset_id,
                                        enabled: p.enabled,
                                        parsed: ParsedMapping { lhs, rhs, modes: p.parsed.modes, kind: p.parsed.kind },
                                    },
                                ),
                            ),
                        )
                    },
                    _ => None,
                };
                if let Some(l) = new_line {
                    self.doc.lines.set(idx, l);
                }
            }
            proof {
                assert forall|j: int| 0 <= j < start.len() implies #[trigger] line_views(self.doc.lines@)[j]
                    == if id.0@.take(k + 1).contains(j as usize) {
                    if lhs_side {
                        with_lhs(line_view(start[j]), text@)
                    } else {
                        with_rhs(line_view(start[j]), text@)
                    }
                } else {
                    line_view(start[j])
                } by {
                    assert(line_views(before)[j] == line_view(before[j]));
                    assert(line_views(self.doc.lines@)[j] == line_view(self.doc.lines@[j]));
                    if j == idx as int {
                        assert(id.0@.take(k + 1)[k as int] == idx);
                        assert(id.0@.take(k + 1).contains(j as usize));
                    } else {
                        assert(id.0@.take(k + 1).contains(j as usize) == id.0@.take(k as int).contains(j as usize));
                    }
                }
            }
            k = k + 1;
        }
        proof {
            assert(id.0@.take(id.0@.len() as int) =~= id.0@);
        }
    }

    /// Set the modes of a row: with no mode its lines are disabled (kept for
    /// later); otherwise they are replaced, where the row's first line was,
    /// by one enabled line per prefix needed.
    pub fn update_modes(&mut self, id: &MappingGroupId, modes: ModeSet)
        requires
            prefixes_of_modes(modes).len() > 0 ==> id.0@.len() > 0 && id.0@[0] < old(self).lines().len(),
        ensures
            prefixes_of_modes(modes).len() == 0 ==> {
                &&& line_views(final(self).lines()).len() == old(self).lines().len()
                &&& forall|j: int|
                    0 <= j < old(self).lines().len() ==> #[trigger] line_views(final(self).lines())[j]
                        == if id.0@.contains(j as usize) {
                        with_enabled(line_view(old(self).lines()[j]), false)
                    } else {
                        line_view(old(self).lines()[j])
                    }
            },
            prefixes_of_modes(modes).len() > 0 ==> match line_view(old(self).lines()[id.0@[0] as int]) {
                LineView::Mapping(_, _, m) => {
                    let removed = remove_each(line_views(old(self).lines()), sorted_desc(id.0@));
                    let first = id.0@[0] as int;
                    let at = if first < removed.len() {
                        first
                    } else {
                        removed.len() as int
                    };
                    line_views(final(self).lines()) == removed.take(at) + mode_lines(
                        m.0,
                        m.1,
                        m.3,
                        prefixes_of_modes(modes),
                    ) + removed.skip(at)
                },
                _ => line_views(final(self).lines()) == line_views(old(self).lines()),
            },
    {
        let prefixes = mode_prefixes_from_set(modes);
        if prefixes.len() == 0 {
            let ghost start = self.doc.lines@;
            let mut k: usize = 0;
            while k < id.0.len()
                invariant
                    k <= id.0@.len(),
                    self.doc.lines@.len() == start.len(),
                    forall|j: int|
                        0 <= j < start.len() ==> #[trigger] line_views(self.doc.lines@)[j] == if id.0@.take(
                            k as int,
                        ).contains(j as usize) {
                            with_enabled(line_view(start[j]), false)
                        } else {
                            line_view(start[j])
                        },
                decreases id.0@.len() - k,
            {
                let idx = id.0[k];
                let ghost before = self.doc.lines@;
                proof {
                    assert(id.0@.take(k + 1) =~= id.0@.take(k as int).push(idx));
                }
                if idx < self.doc.lines.len() {
                    let new_line = match &self.doc.lines[idx] {
                        ConfigLine::Mapping(p) => {
                            let preset_id = match &p.preset_id {
                                Some(s) => Some(copy_string(s)),
                                None => None,
                            };
                            Some(
                                ConfigLine::Mapping(
                                    Box::new(
                                        MappingPayload {
                                            preset_id,
                                            enabled: false,
                                            parsed: ParsedMapping {
                                                lhs: copy_string(&p.parsed.lhs),
                                                rhs: copy_string(&p.parsed.rhs),
                                                modes: p.parsed.modes,
                                                kind: p.parsed.kind,
                                            },
                                        },
                                    ),
                                ),
                            )
                        },
                        _ => None,
                    };
                    if let Some(l) = new_line {
                        self.doc.lines.set(idx, l);
                    }
                }
                proof {
                    assert forall|j: int| 0 <= j < start.len() implies #[trigger] line_views(self.doc.lines@)[j]
                        == if id.0@.take(k + 1).contains(j as usize) {
                        with_enabled(line_view(start[j]), false)
                    } else {
                        line_view(start[j])
                    } by {
                        assert(line_views(before)[j] == line_view(before[j]));
                        assert(line_views(self.doc.lines@)[j] == line_view(self.doc.lines@[j]));
                        if j == idx as int {
                            assert(id.0@.take(k + 1)[k as int] == idx);
                            assert(id.0@.take(k + 1).contains(j as usize));
                        } else {
                            assert(id.0@.take(k + 1).contains(j as usize) == id.0@.take(k as int).contains(j as usize));
                        }
                    }
                }
                k = k + 1;
            }
            proof {
                assert(id.0@.take(id.0@.len() as int) =~= id.0@);
            }
            return;
        }
        let first_idx = id.0[0];
        let (lhs, rhs, kind) = match &self.doc.lines[first_idx] {
            ConfigLine::Mapping(p) => (copy_string(&p.parsed.lhs), copy_string(&p.parsed.rhs), p.parsed.kind),
            _ => return,
        };
        let order = sort_desc(&id.0);
        proof {
            lemma_sorted_desc(id.0@, order@);
        }
        remove_lines(&mut self.doc.lines, &order);
        let ghost removed = line_views(self.doc.lines@);
        let insert_at = if first_idx < self.doc.lines.len() {
            first_idx
        } else {
            self.doc.lines.len()
        };
        let ghost new_lines = mode_lines(lhs@, rhs@, kind, prefixes@);
        let mut i: usize = 0;
        proof {
            assert(prefixes@.take(0) =~= Seq::<MapModePrefix>::empty());
            assert(removed =~= removed.take(insert_at as int) + mode_lines(lhs@, rhs@, kind, prefixes@.take(0)) + removed.skip(insert_at as int));
        }
        while i < prefixes.len()
            invariant
                i <= prefixes@.len(),
                insert_at <= removed.len(),
                self.doc.lines@.len() == removed.len() + i,
                line_views(self.doc.lines@) == removed.take(insert_at as int) + mode_lines(
                    lhs@,
                    rhs@,
                    kind,
                    prefixes@.take(i as int),
                ) + removed.skip(insert_at as int),
            decreases prefixes@.len() - i,
        {
            let mode = prefixes[i];
            let ghost before = self.doc.lines@;
            let line = ConfigLine::Mapping(
                Box::new(
                    MappingPayload {
                        preset_id: None,
                        enabled: true,
                        parsed: ParsedMapping { lhs: copy_string(&lhs), rhs: copy_string(&rhs), modes: mode, kind },
                    },
                ),
            );
            let _cur = self.doc.lines.len();
            self.doc.lines.insert(insert_at + i, line);
            proof {
                assert(prefixes@.take(i + 1) =~= prefixes@.take(i as int).push(mode));
                assert(mode_lines(lhs@, rhs@, kind, prefixes@.take(i + 1)) =~= mode_lines(
                    lhs@,
                    rhs@,
                    kind,
                    prefixes@.take(i as int),
                ).push(line_view(line)));
                assert(line_views(self.doc.lines@) =~= line_views(before).insert(insert_at + i, line_view(line)));
                assert(line_views(self.doc.lines@) =~= removed.take(insert_at as int) + mode_lines(
                    lhs@,
                    rhs@,
                    kind,
                    prefixes@.take(i + 1),
                ) + removed.skip(insert_at as int));
            }
            i = i + 1;
        }
        proof {
            assert(prefixes@.take(i as int) =~= prefixes@);
        }
    }

    /// Turn the preset line `id` on or off.
    pub fn toggle_preset(&mut self, id: &PresetId, enabled: bool)
        ensures
            line_views(final(self).lines()) == if id.0 < old(self).lines().len() {
                line_views(old(self).lines()).update(
                    id.0 as int,
                    with_enabled(line_view(old(self).lines()[id.0 as int]), enabled),
                )
            } else {
                line_views(old(self).lines())
            },
    {
        let ghost before = self.doc.lines@;
        if id.0 < self.doc.lines.len() {
            let new_line = match &self.doc.lines[id.0] {
                ConfigLine::Mapping(p) => {
                    let preset_id = match &p.preset_id {
                        Some(s) => Some(copy_string(s)),
                        None => None,
                    };
                    Some(
                        ConfigLine::Mapping(
                            Box::new(
                                MappingPayload {
                                    preset_id,
                                    enabled,
                                    parsed: ParsedMapping {
                                        lhs: copy_string(&p.parsed.lhs),
                                        rhs: copy_string(&p.parsed.rhs),
                                        modes: p.parsed.modes,
                                        kind: p.parsed.kind,
                                    },
                                },
                            ),
                        ),
                    )
                },
                _ => None,
            };
            if let Some(l) = new_line {
                self.doc.lines.set(id.0, l);
            }
            proof {
                assert(line_views(self.doc.lines@) =~= line_views(before).update(
                    id.0 as int,
                    with_enabled(line_view(before[id.0 as int]), enabled),
                ));
            }
        }
    }

    /// Set `timeoutlen` in the config.
    pub fn set_timeoutlen(&mut self, ms: u32)
        ensures
            match first_timeoutlen_line(old(self).lines(), 0) {
                Some(i) => final(self).lines().len() == old(self).lines().len() && (forall|j: int|
                    0 <= j < old(self).lines().len() && j != i ==> #[trigger] final(self).lines()[j]
                        == old(self).lines()[j]) && setting_text(final(self).lines()[i]) == Some(
                    timeoutlen_line(ms),
                ),
                None => {
                    let at = match first_leader_line(old(self).lines(), 0) {
                        Some(k) => k + 1,
                        None => 0,
                    };
                    &&& final(self).lines().len() == old(self).lines().len() + 1
                    &&& final(self).lines().take(at) == old(self).lines().take(at)
                    &&& final(self).lines().skip(at + 1) == old(self).lines().skip(at)
                    &&& setting_text(final(self).lines()[at]) == Some(timeoutlen_line(ms))
                },
            },
    {
        self.doc.set_timeoutlen(ms);
    }
}

/// Index of the first row with the mapping's lhs, rhs and kind.
fn find_group(groups: &Vec<UserMappingRow>, parsed: &ParsedMapping) -> (r: Option<usize>)
    ensures
        match r {
            Some(g) => find_row(row_views(groups@), parsed.lhs@, parsed.rhs@, parsed.kind, 0) == Some(g as int)
                && g < groups@.len(),
            None => find_row(row_views(groups@), parsed.lhs@, parsed.rhs@, parsed.kind, 0).is_none(),
        },
{
    let ghost rv = row_views(groups@);
    let mut i: usize = 0;
    while i < groups.len()
        invariant
            rv == row_views(groups@),
            i <= groups@.len(),
            find_row(rv, parsed.lhs@, parsed.rhs@, parsed.kind, 0) == find_row(
                rv,
                parsed.lhs@,
                parsed.rhs@,
                parsed.kind,
                i as int,
            ),
        decreases groups@.len() - i,
    {
        proof {
            assert(rv[i as int] == row_view(groups@[i as int]));
        }
        if str_equal(groups[i].lhs.as_str(), parsed.lhs.as_str()) && str_equal(
            groups[i].rhs.as_str(),
            parsed.rhs.as_str(),
        ) && groups[i].kind == parsed.kind {
            return Some(i);
        }
        i = i + 1;
    }
    None
}

/// Category of the first shipped preset with the mapping's lhs and rhs,
/// else `Custom`.
fn find_preset_category(table: &Vec<crate::presets::PresetDefinition>, parsed: &ParsedMapping) -> (r: &'static str)
    requires
        crate::presets::preset_views(table@) == shipped_presets(),
    ensures
        r@ == category_from(parsed.lhs@, parsed.rhs@, 0),
{
    let mut i: usize = 0;
    while i < table.len()
        invariant
            crate::presets::preset_views(table@) == shipped_presets(),
            i <= table@.len(),
            category_from(parsed.lhs@, parsed.rhs@, 0) == category_from(parsed.lhs@, parsed.rhs@, i as int),
        decreases table@.len() - i,
    {
        proof {
            assert(shipped_presets()[i as int] == crate::presets::preset_view(table@[i as int]));
        }
        if str_equal(table[i].lhs, parsed.lhs.as_str()) && str_equal(table[i].rhs, parsed.rhs.as_str()) {
            return table[i].category;
        }
        i = i + 1;
    }
    "Custom"
}

/// Whether a row passes the dialog's mode filter (0 all, 1 normal,
/// 2 insert, 3 visual, 4 operator-pending, 5 command; others pass).
pub fn row_passes_mode_filter(row: &UserMappingRow, filter_idx: i32) -> (r: bool)
    ensures
        r == match filter_idx {
            1 => row.modes.normal,
            2 => row.modes.insert,
            3 => row.modes.visual,
            4 => row.modes.operator,
            5 => row.modes.command,
            _ => true,
        },
{
    match filter_idx {
        0 => true,
        1 => row.modes.contains(ModeSet::normal()),
        2 => row.modes.contains(ModeSet::insert()),
        3 => row.modes.contains(ModeSet::visual()),
        4 => row.modes.contains(ModeSet::operator()),
        5 => row.modes.contains(ModeSet::command()),
        _ => true,
    }
}

} // verus!
