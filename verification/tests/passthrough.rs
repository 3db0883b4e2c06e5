//! The passthrough chain. The engine's answers stand for a fresh engine
//! with no mappings: it handles plain motions such as `j` and Escape, and
//! not F20 or Alt+x.

use godot_vim::keymap::Key;
use godot_vim::keymap::KeyEvent;
use godot_vim::keymap::Modifiers;
use godot_vim::passthrough::evaluate_engine_query;
use godot_vim::passthrough::evaluate_host_policy;
use godot_vim::passthrough::evaluate_mapping_priority;
use godot_vim::passthrough::evaluate_user_override;
use godot_vim::passthrough::filter_chain;
use godot_vim::passthrough::run_passthrough_chain;
use godot_vim::passthrough::should_passthrough_key;
use godot_vim::passthrough::EngineAnswers;
use godot_vim::passthrough::FilterContext;
use godot_vim::passthrough::FilterVerdict;
use godot_vim::passthrough::PassthroughFilter;

/// A fresh engine: no mappings; handles the built-in commands.
fn fresh_engine(key: KeyEvent) -> EngineAnswers {
    let handled = matches!(key.key(), Key::Escape)
        || (key.modifiers() == Modifiers::none() && matches!(key.key(), Key::Char('j')));
    EngineAnswers {
        has_pending_mapping: false,
        could_start_mapping: false,
        would_handle_key: handled,
    }
}

fn test_ctx(key: KeyEvent) -> FilterContext {
    FilterContext { key, normalized_key: key, engine: fresh_engine(key), user_overrides: Vec::new() }
}

fn make_ctx(key: KeyEvent, overrides: Vec<KeyEvent>) -> FilterContext {
    FilterContext { key, normalized_key: key, engine: fresh_engine(key), user_overrides: overrides }
}

#[test]
fn mapping_priority_no_mapping_is_undecided() {
    let ctx = test_ctx(KeyEvent::char('j'));
    assert_eq!(evaluate_mapping_priority(&ctx), FilterVerdict::Undecided);
}

#[test]
fn user_override_matching_key_passes_through() {
    let ctx = make_ctx(KeyEvent::ctrl('s'), vec![KeyEvent::ctrl('s')]);
    assert_eq!(evaluate_user_override(&ctx), FilterVerdict::Passthrough);
}

#[test]
fn user_override_no_match_is_undecided() {
    let ctx = make_ctx(KeyEvent::ctrl('s'), Vec::new());
    assert_eq!(evaluate_user_override(&ctx), FilterVerdict::Undecided);
}

#[test]
fn user_override_matches_normalized_key() {
    let raw_key = KeyEvent::new(Key::Char('\u{043E}'), Modifiers::none());
    let normalized = KeyEvent::char('j');
    let ctx = FilterContext {
        key: raw_key,
        normalized_key: normalized,
        engine: fresh_engine(raw_key),
        user_overrides: vec![KeyEvent::char('j')],
    };
    assert_eq!(evaluate_user_override(&ctx), FilterVerdict::Passthrough);
}

#[test]
fn host_policy_f_keys_passthrough() {
    for n in 1..=12 {
        let key = KeyEvent::new(Key::F(n), Modifiers::none());
        let ctx = test_ctx(key);
        assert_eq!(evaluate_host_policy(&ctx), FilterVerdict::Passthrough, "F{n} should passthrough");
    }
}

#[test]
fn host_policy_f_keys_with_modifiers_passthrough() {
    let key = KeyEvent::new(Key::F(5), Modifiers::shift());
    let ctx = test_ctx(key);
    assert_eq!(evaluate_host_policy(&ctx), FilterVerdict::Passthrough);

    let key = KeyEvent::new(Key::F(1), Modifiers::ctrl());
    let ctx = test_ctx(key);
    assert_eq!(evaluate_host_policy(&ctx), FilterVerdict::Passthrough);
}

#[test]
fn host_policy_meta_combos_passthrough() {
    let key = KeyEvent::new(Key::Char('s'), Modifiers::meta());
    let ctx = test_ctx(key);
    assert_eq!(evaluate_host_policy(&ctx), FilterVerdict::Passthrough);
}

#[test]
fn host_policy_meta_keys_passthrough() {
    for c in 'a'..='z' {
        let key = KeyEvent::new(Key::Char(c), Modifiers::meta());
        let ctx = test_ctx(key);
        assert_eq!(evaluate_host_policy(&ctx), FilterVerdict::Passthrough, "Meta+{c} should pass through");
    }
}

#[test]
fn host_policy_alt_does_not_passthrough() {
    let ctx = test_ctx(KeyEvent::alt('x'));
    assert_eq!(evaluate_host_policy(&ctx), FilterVerdict::Undecided);
}

#[test]
fn host_policy_alt_s_does_not_passthrough() {
    let ctx = test_ctx(KeyEvent::alt('s'));
    assert_eq!(evaluate_host_policy(&ctx), FilterVerdict::Undecided);
}

#[test]
fn host_policy_plain_key_is_undecided() {
    let ctx = test_ctx(KeyEvent::char('j'));
    assert_eq!(evaluate_host_policy(&ctx), FilterVerdict::Undecided);
}

#[test]
fn host_policy_ctrl_key_is_undecided() {
    let ctx = test_ctx(KeyEvent::ctrl('s'));
    assert_eq!(evaluate_host_policy(&ctx), FilterVerdict::Undecided);
}

#[test]
fn engine_query_handled_key_sends_to_engine() {
    let ctx = make_ctx(KeyEvent::char('j'), Vec::new());
    assert_eq!(evaluate_engine_query(&ctx), FilterVerdict::SendToEngine);
}

#[test]
fn engine_query_unhandled_key_passes_through() {
    let key = KeyEvent::new(Key::F(20), Modifiers::none());
    let ctx = make_ctx(key, Vec::new());
    assert_eq!(evaluate_engine_query(&ctx), FilterVerdict::Passthrough);
}

#[test]
fn chain_f_key_stops_at_host_policy() {
    let key = KeyEvent::new(Key::F(5), Modifiers::none());
    let ctx = make_ctx(key, Vec::new());
    assert!(run_passthrough_chain(&ctx), "F5 should passthrough");
}

#[test]
fn chain_meta_stops_at_host_policy() {
    let key = KeyEvent::new(Key::Char('s'), Modifiers::meta());
    let ctx = make_ctx(key, Vec::new());
    assert!(run_passthrough_chain(&ctx), "Meta+s should passthrough");
}

#[test]
fn chain_alt_reaches_engine_query_not_host_policy() {
    let ctx = make_ctx(KeyEvent::alt('x'), Vec::new());
    assert!(run_passthrough_chain(&ctx), "Alt+x should passthrough via EngineQuery (not HostPolicy)");
}

#[test]
fn chain_user_override_intercepts_before_engine() {
    let ctx = make_ctx(KeyEvent::char('j'), vec![KeyEvent::char('j')]);
    assert!(run_passthrough_chain(&ctx), "User override for 'j' should passthrough despite engine handling it");
}

#[test]
fn chain_plain_key_handled_by_engine() {
    let ctx = make_ctx(KeyEvent::char('j'), Vec::new());
    assert!(!run_passthrough_chain(&ctx), "'j' should NOT passthrough — engine handles it");
}

#[test]
fn chain_escape_handled_by_engine() {
    let ctx = make_ctx(KeyEvent::escape(), Vec::new());
    assert!(!run_passthrough_chain(&ctx), "Escape should NOT passthrough — engine handles it");
}

#[test]
fn chain_order_is_fixed() {
    assert_eq!(
        filter_chain(),
        vec![
            PassthroughFilter::MappingPriority,
            PassthroughFilter::UserOverride,
            PassthroughFilter::HostPolicy,
            PassthroughFilter::EngineQuery,
        ]
    );
}

#[test]
fn pending_mapping_claims_even_f_keys() {
    let key = KeyEvent::new(Key::F(5), Modifiers::none());
    let engine = EngineAnswers { has_pending_mapping: true, could_start_mapping: false, would_handle_key: false };
    let ctx = FilterContext { key, normalized_key: key, engine, user_overrides: vec![key] };
    assert!(!run_passthrough_chain(&ctx));
}

#[test]
fn should_passthrough_uses_latin_equivalent() {
    let key = KeyEvent::new(Key::Char('о'), Modifiers::none()).with_latin(Key::Char('j'));
    let engine = EngineAnswers { has_pending_mapping: false, could_start_mapping: false, would_handle_key: true };
    assert!(should_passthrough_key(key, engine, vec![KeyEvent::char('j')]));
    assert!(!should_passthrough_key(key, engine, vec![KeyEvent::char('k')]));
}
