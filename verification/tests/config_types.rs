use godot_vim::config_types::{
    mapping_to_vim_command, mode_prefixes_from_set, mode_set_from_prefix, ConfigDocument,
    ConfigLine, MapModePrefix, MappingKind, ModeSet, ParsedMapping,
};
use std::collections::HashSet;
fn make_doc_with_setting(setting: &str) -> ConfigDocument {
    ConfigDocument {
        lines: vec![
            ConfigLine::Leader("let mapleader = \" \"".to_string()),
            ConfigLine::Setting(setting.to_string()),
        ],
    }
}

#[test]
fn timeoutlen_reads_value() {
    let doc = make_doc_with_setting("set timeoutlen=500");
    assert_eq!(doc.timeoutlen(), Some(500));
}

#[test]
fn timeoutlen_reads_abbreviation() {
    let doc = make_doc_with_setting("set tm=750");
    assert_eq!(doc.timeoutlen(), Some(750));
}

#[test]
fn timeoutlen_returns_none_when_missing() {
    let doc = ConfigDocument {
        lines: vec![ConfigLine::Leader("let mapleader = \" \"".to_string())],
    };
    assert_eq!(doc.timeoutlen(), None);
}

#[test]
fn timeoutlen_ignores_unrelated_settings() {
    let doc = make_doc_with_setting("set number");
    assert_eq!(doc.timeoutlen(), None);
}

#[test]
fn set_timeoutlen_updates_existing() {
    let mut doc = make_doc_with_setting("set timeoutlen=500");
    doc.set_timeoutlen(2000);
    assert_eq!(doc.timeoutlen(), Some(2000));
    // Verify the line was updated, not duplicated.
    let setting_count = doc
        .lines
        .iter()
        .filter(|l| matches!(l, ConfigLine::Setting(_)))
        .count();
    assert_eq!(setting_count, 1);
}

#[test]
fn set_timeoutlen_inserts_after_leader() {
    let mut doc = ConfigDocument {
        lines: vec![
            ConfigLine::Comment("\" header".to_string()),
            ConfigLine::Leader("let mapleader = \" \"".to_string()),
            ConfigLine::BlankLine,
        ],
    };
    doc.set_timeoutlen(800);
    assert_eq!(doc.timeoutlen(), Some(800));
    // Should be inserted at index 2 (after leader at index 1).
    assert!(matches!(doc.lines[2], ConfigLine::Setting(_)));
}

#[test]
fn set_timeoutlen_inserts_at_top_when_no_leader() {
    let mut doc = ConfigDocument {
        lines: vec![ConfigLine::Comment("\" just a comment".to_string())],
    };
    doc.set_timeoutlen(300);
    assert_eq!(doc.timeoutlen(), Some(300));
    assert!(matches!(doc.lines[0], ConfigLine::Setting(_)));
}

#[test]
fn mapping_to_vim_command_normal_noremap() {
    let m = ParsedMapping {
        lhs: "jk".to_string(),
        rhs: "<Esc>".to_string(),
        modes: MapModePrefix::Normal,
        kind: MappingKind::NonRecursive,
    };
    assert_eq!(mapping_to_vim_command(&m), "nnoremap jk <Esc>");
}

#[test]
fn mapping_to_vim_command_all_map() {
    let m = ParsedMapping {
        lhs: "<Leader>w".to_string(),
        rhs: ":save<CR>".to_string(),
        modes: MapModePrefix::All,
        kind: MappingKind::Recursive,
    };
    assert_eq!(mapping_to_vim_command(&m), "map <Leader>w :save<CR>");
}

#[test]
fn mode_prefixes_empty_returns_empty() {
    let prefixes = mode_prefixes_from_set(ModeSet::empty());
    assert!(prefixes.is_empty());
}

#[test]
fn mode_prefixes_single_mode() {
    assert_eq!(
        mode_prefixes_from_set(ModeSet::normal()),
        vec![MapModePrefix::Normal]
    );
    assert_eq!(
        mode_prefixes_from_set(ModeSet::insert()),
        vec![MapModePrefix::Insert]
    );
    assert_eq!(
        mode_prefixes_from_set(ModeSet::visual()),
        vec![MapModePrefix::Visual]
    );
    assert_eq!(
        mode_prefixes_from_set(ModeSet::operator()),
        vec![MapModePrefix::Operator]
    );
    assert_eq!(
        mode_prefixes_from_set(ModeSet::command()),
        vec![MapModePrefix::Command]
    );
}

#[test]
fn mode_prefixes_nvo_collapses_to_all() {
    assert_eq!(
        mode_prefixes_from_set(ModeSet::nvo()),
        vec![MapModePrefix::All]
    );
}

#[test]
fn mode_prefixes_nvo_plus_insert() {
    assert_eq!(
        mode_prefixes_from_set(ModeSet::nvo().union(ModeSet::insert())),
        vec![MapModePrefix::All, MapModePrefix::Insert]
    );
}

#[test]
fn mode_set_from_prefix_roundtrips() {
    for prefix in [
        MapModePrefix::Normal,
        MapModePrefix::Insert,
        MapModePrefix::Visual,
        MapModePrefix::Operator,
        MapModePrefix::Command,
    ] {
        let set = mode_set_from_prefix(prefix);
        let back = mode_prefixes_from_set(set);
        assert_eq!(back, vec![prefix]);
    }
}

#[test]
fn mode_set_from_prefix_all_gives_nvo() {
    let set = mode_set_from_prefix(MapModePrefix::All);
    assert_eq!(set, ModeSet::nvo());
}

fn handled_map_mode_prefixes() -> Vec<MapModePrefix> {
    vec![
        MapModePrefix::All,
        MapModePrefix::Normal,
        MapModePrefix::Visual,
        MapModePrefix::Insert,
        MapModePrefix::Operator,
        MapModePrefix::Command,
        MapModePrefix::VisualOnly,
        MapModePrefix::SelectOnly,
    ]
}

#[test]
fn map_mode_prefix_dispatch_covers_all_variants() {
    let handled: HashSet<_> = handled_map_mode_prefixes().into_iter().collect();
    let all: HashSet<_> = MapModePrefix::all().into_iter().collect();
    let missing: Vec<_> = all.difference(&handled).collect();
    assert!(
        missing.is_empty(),
        "Unhandled MapModePrefix variants: {:?}",
        missing
    );
}

#[test]
fn handled_map_mode_prefixes_has_no_duplicates() {
    let mut seen = HashSet::new();
    for kind in handled_map_mode_prefixes() {
        assert!(
            seen.insert(kind),
            "Duplicate in HANDLED_MAP_MODE_PREFIXES: {:?}",
            kind
        );
    }
}
