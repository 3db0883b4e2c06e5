use godot_vim::config_types::{ConfigLine, MapModePrefix, MappingKind};
use godot_vim::parser::parse_config;
#[test]
fn parse_empty_config() {
    let doc = parse_config("");
    assert!(doc.lines.is_empty());
}

#[test]
fn parse_comments_and_blanks() {
    let text = "\" This is a comment\n\n\" Another comment\n";
    let doc = parse_config(text);
    assert_eq!(doc.lines.len(), 3);
    assert!(matches!(doc.lines[0], ConfigLine::Comment(_)));
    assert!(matches!(doc.lines[1], ConfigLine::BlankLine));
    assert!(matches!(doc.lines[2], ConfigLine::Comment(_)));
}

#[test]
fn parse_simple_mapping() {
    let text = "nnoremap jk <Esc>\n";
    let doc = parse_config(text);
    assert_eq!(doc.lines.len(), 1);
    if let ConfigLine::Mapping(payload) = &doc.lines[0] {
        assert!(payload.preset_id.is_none());
        assert!(payload.enabled);
        assert_eq!(payload.parsed.lhs, "jk");
        assert_eq!(payload.parsed.rhs, "<Esc>");
        assert_eq!(payload.parsed.modes, MapModePrefix::Normal);
        assert_eq!(payload.parsed.kind, MappingKind::NonRecursive);
    } else {
        panic!("Expected Mapping line");
    }
}

#[test]
fn parse_recursive_mapping() {
    let text = "nmap j gj\n";
    let doc = parse_config(text);
    if let ConfigLine::Mapping(payload) = &doc.lines[0] {
        assert_eq!(payload.parsed.lhs, "j");
        assert_eq!(payload.parsed.rhs, "gj");
        assert_eq!(payload.parsed.kind, MappingKind::Recursive);
    } else {
        panic!("Expected Mapping line");
    }
}

#[test]
fn parse_insert_mode_mapping() {
    let text = "inoremap jk <Esc>\n";
    let doc = parse_config(text);
    if let ConfigLine::Mapping(payload) = &doc.lines[0] {
        assert_eq!(payload.parsed.modes, MapModePrefix::Insert);
    } else {
        panic!("Expected Mapping line");
    }
}

#[test]
fn parse_generic_map() {
    let text = "noremap x dd\n";
    let doc = parse_config(text);
    if let ConfigLine::Mapping(payload) = &doc.lines[0] {
        assert_eq!(payload.parsed.modes, MapModePrefix::All);
        assert_eq!(payload.parsed.kind, MappingKind::NonRecursive);
    } else {
        panic!("Expected Mapping line");
    }
}

#[test]
fn parse_set_command() {
    let text = "set timeoutlen=500\n";
    let doc = parse_config(text);
    assert!(matches!(doc.lines[0], ConfigLine::Setting(_)));
}

#[test]
fn parse_let_mapleader() {
    let text = "let mapleader = \" \"\n";
    let doc = parse_config(text);
    assert!(matches!(doc.lines[0], ConfigLine::Leader(_)));
}

#[test]
fn parse_preset_enabled() {
    let text = "\" preset:enabled\nnnoremap <Space>w :save<CR>\n";
    let doc = parse_config(text);
    // Marker is consumed by parser (not stored as Comment); only the Mapping remains.
    assert_eq!(doc.lines.len(), 1);
    if let ConfigLine::Mapping(payload) = &doc.lines[0] {
        assert!(payload.preset_id.is_some());
        assert!(payload.enabled);
        assert_eq!(payload.parsed.lhs, "<Space>w");
        assert_eq!(payload.parsed.rhs, ":save<CR>");
    } else {
        panic!("Expected Mapping line");
    }
}

#[test]
fn parse_preset_disabled() {
    let text = "\" preset:disabled\n\" nnoremap jj <Esc>\n";
    let doc = parse_config(text);
    // Marker is consumed; only the disabled Mapping remains.
    assert_eq!(doc.lines.len(), 1);
    if let ConfigLine::Mapping(payload) = &doc.lines[0] {
        assert!(payload.preset_id.is_some());
        assert!(!payload.enabled);
        assert_eq!(payload.parsed.lhs, "jj");
        assert_eq!(payload.parsed.rhs, "<Esc>");
    } else {
        panic!("Expected disabled Mapping line, got {:?}", doc.lines[0]);
    }
}

#[test]
fn parse_unknown_line_preserved() {
    let text = "some_custom_thing\n";
    let doc = parse_config(text);
    assert!(matches!(doc.lines[0], ConfigLine::Other(_)));
}

#[test]
fn parse_full_config() {
    let text = "\
\" GodotVim Configuration
let mapleader = \" \"
set timeoutlen=500

\" --- User Mappings ---
nnoremap <Leader>w :save<CR>
inoremap jk <Esc>

\" --- Presets ---
\" preset:enabled
nnoremap <Space>r :run<CR>
\" preset:disabled
\" inoremap jj <Esc>
";
    let doc = parse_config(text);

    // Count user mappings (no preset_id) and preset mappings (has preset_id).
    let user_mappings: Vec<_> = doc
        .lines
        .iter()
        .filter(|l| {
            matches!(l,
                ConfigLine::Mapping(p) if p.preset_id.is_none()
            )
        })
        .collect();
    let preset_mappings: Vec<_> = doc
        .lines
        .iter()
        .filter_map(|l| match l {
            ConfigLine::Mapping(p) if p.preset_id.is_some() => Some(p.enabled),
            _ => None,
        })
        .collect();

    assert_eq!(user_mappings.len(), 2);
    assert_eq!(preset_mappings.len(), 2);
    assert!(preset_mappings[0]); // first preset is enabled
    assert!(!preset_mappings[1]); // second is disabled
}

#[test]
fn parse_disabled_user_mapping() {
    let text = "\" disabled: nnoremap jk <Esc>\n";
    let doc = parse_config(text);
    assert_eq!(doc.lines.len(), 1);
    if let ConfigLine::Mapping(payload) = &doc.lines[0] {
        assert!(payload.preset_id.is_none());
        assert!(!payload.enabled);
        assert_eq!(payload.parsed.lhs, "jk");
        assert_eq!(payload.parsed.rhs, "<Esc>");
        assert_eq!(payload.parsed.modes, MapModePrefix::Normal);
        assert_eq!(payload.parsed.kind, MappingKind::NonRecursive);
    } else {
        panic!("Expected disabled Mapping line, got {:?}", doc.lines[0]);
    }
}

#[test]
fn orphan_preset_markers_are_kept_as_comments() {
    let text = "\" preset:enabled\nset number\n\" preset:disabled\n\" preset:enabled\n";
    let doc = parse_config(text);
    assert_eq!(doc.lines.len(), 4);
    match &doc.lines[0] {
        ConfigLine::Comment(c) => assert_eq!(c, "\" preset:enabled"),
        other => panic!("expected the marker as a comment, got {:?}", other),
    }
    assert!(matches!(doc.lines[1], ConfigLine::Setting(_)));
    match &doc.lines[2] {
        ConfigLine::Comment(c) => assert_eq!(c, "\" preset:disabled"),
        other => panic!("expected the marker as a comment, got {:?}", other),
    }
    match &doc.lines[3] {
        ConfigLine::Comment(c) => assert_eq!(c, "\" preset:enabled"),
        other => panic!("expected the trailing marker as a comment, got {:?}", other),
    }
}
