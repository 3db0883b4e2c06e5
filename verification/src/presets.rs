//! Curated preset mappings that the mapping dialog can toggle on and off.

use crate::config_types::{
    mapping_to_vim_command, mode_prefix_of, parse_mode_prefix, vim_command_of, MapModePrefix,
    MappingKind, ParsedMapping,
};
use vstd::prelude::*;

verus! {

/// A preset: the mapping, its mode prefix (`n`, `i`, `v`, `o`, `c`, or none
/// for `:map`), its dialog category and whether it starts enabled.
#[derive(Debug, Clone)]
pub struct PresetDefinition {
    pub lhs: &'static str,
    pub rhs: &'static str,
    pub mode_prefix: &'static str,
    pub kind: MappingKind,
    pub category: &'static str,
    pub default_enabled: bool,
}

/// `(lhs, rhs, mode prefix, category)` of a preset.
pub open spec fn preset_view(p: PresetDefinition) -> (Seq<char>, Seq<char>, Seq<char>, Seq<char>) {
    (p.lhs@, p.rhs@, p.mode_prefix@, p.category@)
}

pub open spec fn preset_views(v: Seq<PresetDefinition>) -> Seq<(Seq<char>, Seq<char>, Seq<char>, Seq<char>)> {
    v.map_values(|p: PresetDefinition| preset_view(p))
}

/// The shipped presets, in dialog order.
pub open spec fn shipped_presets() -> Seq<(Seq<char>, Seq<char>, Seq<char>, Seq<char>)> {
    seq![
        ("jj"@, "<Esc>"@, "i"@, "Insert Escape"@),
        ("jk"@, "<Esc>"@, "i"@, "Insert Escape"@),
        ("<Space>w"@, ":save<CR>"@, "n"@, "File Ops"@),
        ("<Space>W"@, ":saveall<CR>"@, "n"@, "File Ops"@),
        ("<Space>n"@, ":bn<CR>"@, "n"@, "Buffer Nav"@),
        ("<Space>p"@, ":bp<CR>"@, "n"@, "Buffer Nav"@),
        ("<Space>db"@, ":GodotBreakpoint<CR>"@, "n"@, "Debugging"@),
        ("<Space>dc"@, ":GodotContinue<CR>"@, "n"@, "Debugging"@),
        ("<Space>dn"@, ":GodotNext<CR>"@, "n"@, "Debugging"@),
        ("<Space>di"@, ":GodotStepIn<CR>"@, "n"@, "Debugging"@),
        ("<Space>do"@, ":GodotStepOut<CR>"@, "n"@, "Debugging"@),
        ("<Space>r"@, ":run<CR>"@, "n"@, "Scene"@),
        ("<Space>R"@, ":runcurrent<CR>"@, "n"@, "Scene"@),
        ("<Space>S"@, ":stop<CR>"@, "n"@, "Scene"@),
        ("<Space>e"@, ":FileSystem<CR>"@, "n"@, "Navigation"@),
        ("<Space>i"@, ":Inspector<CR>"@, "n"@, "Navigation"@),
        ("<Space>s"@, ":Script<CR>"@, "n"@, "Navigation"@),
        ("<Space>z"@, ":zen<CR>"@, "n"@, "Editor"@),
        ("<Space>Z"@, ":unzen<CR>"@, "n"@, "Editor"@),
        ("<Esc>"@, ":noh<CR>"@, "n"@, "Search"@),
    ]
}

fn preset(lhs: &'static str, rhs: &'static str, mode_prefix: &'static str, category: &'static str) -> (r:
    PresetDefinition)
    ensures
        preset_view(r) == (lhs@, rhs@, mode_prefix@, category@),
        r.kind == MappingKind::NonRecursive,
        !r.default_enabled,
{
    PresetDefinition {
        lhs,
        rhs,
        mode_prefix,
        kind: MappingKind::NonRecursive,
        category,
        default_enabled: false,
    }
}

/// The shipped presets: all non-recursive and off by default.
pub fn presets() -> (r: Vec<PresetDefinition>)
    ensures
        preset_views(r@) == shipped_presets(),
        forall|i: int| 0 <= i < r@.len() ==> (#[trigger] r@[i]).kind == MappingKind::NonRecursive
            && !r@[i].default_enabled,
{
    let mut v: Vec<PresetDefinition> = Vec::new();
    v.push(preset("jj", "<Esc>", "i", "Insert Escape"));
    v.push(preset("jk", "<Esc>", "i", "Insert Escape"));
    v.push(preset("<Space>w", ":save<CR>", "n", "File Ops"));
    v.push(preset("<Space>W", ":saveall<CR>", "n", "File Ops"));
    v.push(preset("<Space>n", ":bn<CR>", "n", "Buffer Nav"));
    v.push(preset("<Space>p", ":bp<CR>", "n", "Buffer Nav"));
    v.push(preset("<Space>db", ":GodotBreakpoint<CR>", "n", "Debugging"));
    v.push(preset("<Space>dc", ":GodotContinue<CR>", "n", "Debugging"));
    v.push(preset("<Space>dn", ":GodotNext<CR>", "n", "Debugging"));
    v.push(preset("<Space>di", ":GodotStepIn<CR>", "n", "Debugging"));
    v.push(preset("<Space>do", ":GodotStepOut<CR>", "n", "Debugging"));
    v.push(preset("<Space>r", ":run<CR>", "n", "Scene"));
    v.push(preset("<Space>R", ":runcurrent<CR>", "n", "Scene"));
    v.push(preset("<Space>S", ":stop<CR>", "n", "Scene"));
    v.push(preset("<Space>e", ":FileSystem<CR>", "n", "Navigation"));
    v.push(preset("<Space>i", ":Inspector<CR>", "n", "Navigation"));
    v.push(preset("<Space>s", ":Script<CR>", "n", "Navigation"));
    v.push(preset("<Space>z", ":zen<CR>", "n", "Editor"));
    v.push(preset("<Space>Z", ":unzen<CR>", "n", "Editor"));
    v.push(preset("<Esc>", ":noh<CR>", "n", "Search"));
    proof {
        assert(preset_views(v@) =~= shipped_presets());
    }
    v
}

impl PresetDefinition {
    /// The Vim command that installs this preset (a prefix that names no
    /// mode is read as normal mode).
    pub fn to_vim_command(&self) -> (r: String)
        ensures
            r@ == vim_command_of(
                self.lhs@,
                self.rhs@,
                match mode_prefix_of(self.mode_prefix@) {
                    Some(m) => m,
                    None => MapModePrefix::Normal,
                },
                self.kind,
            ),
    {
        let modes = match parse_mode_prefix(self.mode_prefix) {
            Some(m) => m,
            None => MapModePrefix::Normal,
        };
        let parsed = ParsedMapping {
            lhs: self.lhs.to_owned(),
            rhs: self.rhs.to_owned(),
            modes,
            kind: self.kind,
        };
        mapping_to_vim_command(&parsed)
    }
}

} // verus!
