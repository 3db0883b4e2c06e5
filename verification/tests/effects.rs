//! Non-text effects: carets, folds, windows, status, registers, previews.

use godot_vim::codec::DocumentView;
use godot_vim::codec::LineIndex;
use godot_vim::effects::apply_status_effect;
use godot_vim::effects::handle_copy_to_clipboard;
use godot_vim::effects::sync_register_to_clipboard;
use godot_vim::effects::ClipboardPort;
use godot_vim::effects::MockClipboard;
use godot_vim::effects::caret_cleanup;
use godot_vim::effects::caret_placement;
use godot_vim::effects::convert_window_nav_action;
use godot_vim::effects::fold_command;
use godot_vim::effects::register_syncs_clipboard;
use godot_vim::effects::substitute_preview;
use godot_vim::effects::window_nav_for_effect;
use godot_vim::effects::norm_command_action;
use godot_vim::effects::window_compound_action;
use godot_vim::effects::CompoundAction;
use godot_vim::effects::RemapPolicy;
use godot_vim::effects::CaretCleanup;
use godot_vim::effects::CaretPlacement;
use godot_vim::effects::FoldCommand;
use godot_vim::effects::FoldEffect;
use godot_vim::effects::SessionWindowNav;
use godot_vim::effects::StatusEffect;
use godot_vim::effects::WindowEffect;
use godot_vim::effects::WindowNavAction;
use godot_vim::status::GlobalState;
use godot_vim::types::CharLineCol;

#[test]
fn caret_placement_by_index() {
    assert_eq!(caret_placement(2, 0, 1), CaretPlacement::Skip);
    assert_eq!(caret_placement(1, 0, 3), CaretPlacement::Primary);
    assert_eq!(caret_placement(1, 1, 1), CaretPlacement::Add);
    assert_eq!(caret_placement(1, 1, 3), CaretPlacement::Move(1));
    assert_eq!(caret_placement(0, 4, 3), CaretPlacement::Add);
}

#[test]
fn caret_cleanup_rules() {
    assert_eq!(caret_cleanup(3, 0), CaretCleanup::Keep);
    assert_eq!(caret_cleanup(1, 3), CaretCleanup::RemoveFrom(3));
    assert_eq!(caret_cleanup(1, 1), CaretCleanup::RemoveSecondary);
    assert_eq!(caret_cleanup(1, 0), CaretCleanup::RemoveSecondary);
}

#[test]
fn fold_effects_map_to_editor_calls() {
    assert_eq!(fold_command(FoldEffect::FoldLine(4)), Some(FoldCommand::Fold(4)));
    assert_eq!(fold_command(FoldEffect::ToggleFoldRecursive(2)), Some(FoldCommand::Toggle(2)));
    assert_eq!(fold_command(FoldEffect::DeleteFoldRecursive(7)), Some(FoldCommand::Unfold(7)));
    assert_eq!(fold_command(FoldEffect::SetFoldEnable(true)), None);
    assert_eq!(fold_command(FoldEffect::SetFoldEnable(false)), Some(FoldCommand::UnfoldAll));
    assert_eq!(fold_command(FoldEffect::ToggleFoldEnable), Some(FoldCommand::UnfoldAll));
    assert_eq!(fold_command(FoldEffect::FoldLine(usize::MAX)), Some(FoldCommand::Fold(i32::MAX)));
}

#[test]
fn window_effects_map_to_tab_navigation() {
    assert_eq!(window_nav_for_effect(WindowEffect::Next), Some(WindowNavAction::CycleNext));
    assert_eq!(window_nav_for_effect(WindowEffect::Close), Some(WindowNavAction::CloseTab));
    assert_eq!(window_nav_for_effect(WindowEffect::Split), None);
    assert_eq!(window_nav_for_effect(WindowEffect::RotateUp), None);
    assert_eq!(convert_window_nav_action(SessionWindowNav::RotateUp), Some(WindowNavAction::CyclePrev));
    assert_eq!(convert_window_nav_action(SessionWindowNav::Close), Some(WindowNavAction::CloseTab));
    assert_eq!(convert_window_nav_action(SessionWindowNav::VSplit), None);
}

#[test]
fn status_effects_update_message_and_highlight() {
    let mut g = GlobalState::new();
    apply_status_effect(&mut g, StatusEffect::SearchMatchInfo { current: 3, total: 12 });
    assert_eq!(g.message.as_deref(), Some("[3/12]"));
    assert!(!g.message_is_error);
    apply_status_effect(&mut g, StatusEffect::ClearHighlights);
    assert!(!g.hlsearch_enabled);
    assert_eq!(g.message.as_deref(), Some("[3/12]"));
    apply_status_effect(&mut g, StatusEffect::SetSearchPattern);
    assert!(g.hlsearch_enabled);
    apply_status_effect(&mut g, StatusEffect::OpenCommandWindow);
    assert_eq!(g.message.as_deref(), Some("E11: Command window not supported in CodeEdit"));
    assert!(g.message_is_error);
    apply_status_effect(&mut g, StatusEffect::HostAction(String::from("save")));
    assert_eq!(g.message.as_deref(), Some("HostAction: save"));
    apply_status_effect(&mut g, StatusEffect::ClearMessage);
    assert_eq!(g.message, None);
    apply_status_effect(&mut g, StatusEffect::CallOperatorFunc);
    assert_eq!(g.message.as_deref(), Some("E774: operatorfunc (g@) not yet supported"));
}

#[test]
fn only_star_and_plus_reach_clipboard() {
    assert!(register_syncs_clipboard('*'));
    assert!(register_syncs_clipboard('+'));
    assert!(!register_syncs_clipboard('"'));
    assert!(!register_syncs_clipboard('a'));
}

#[test]
fn substitute_preview_maps_and_caps() {
    let text = "foo\nbar foo";
    let idx = LineIndex::new(text);
    let doc = DocumentView::new(text, &idx);
    let matches = vec![(0usize, 3usize, String::from("X")), (8, 11, String::from("Y"))];
    let p = substitute_preview(&doc, &matches);
    assert_eq!(p.len(), 2);
    assert_eq!(p[1].0.start, CharLineCol::new(1, 4));
    assert_eq!(p[1].0.end, CharLineCol::new(1, 7));
    assert_eq!(p[1].1, "Y");
    let many: Vec<(usize, usize, String)> = (0..150).map(|_| (0usize, 1usize, String::new())).collect();
    assert_eq!(substitute_preview(&doc, &many).len(), 100);
}

#[test]
fn clipboard_sync_by_register() {
    let mut clip = MockClipboard::new();
    assert_eq!(clip.read(), "");
    assert!(!sync_register_to_clipboard('a', "alpha", &mut clip));
    assert_eq!(clip.read(), "");
    assert!(sync_register_to_clipboard('+', "plus", &mut clip));
    assert_eq!(clip.read(), "plus");
    assert!(sync_register_to_clipboard('*', "star", &mut clip));
    assert_eq!(clip.content, "star");
    handle_copy_to_clipboard("copied", &mut clip);
    assert_eq!(clip.read(), "copied");
}

#[test]
fn norm_command_becomes_its_compound_action() {
    match norm_command_action(2, 5, "A;<Esc>", false) {
        CompoundAction::NormCommand { start_line, end_line, keys, remap } => {
            assert_eq!((start_line, end_line), (2, 5));
            assert_eq!(keys, "A;<Esc>");
            assert_eq!(remap, RemapPolicy::NoRemap);
        }
        _ => panic!("expected a norm command"),
    }
    assert!(matches!(
        norm_command_action(0, 0, "dd", true),
        CompoundAction::NormCommand { remap: RemapPolicy::Remap, .. }
    ));
}

#[test]
fn window_effects_become_navigation_actions() {
    assert!(matches!(
        window_compound_action(WindowEffect::Next),
        Some(CompoundAction::WindowNav { action: WindowNavAction::CycleNext })
    ));
}
