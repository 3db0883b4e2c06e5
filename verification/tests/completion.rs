//! Autocomplete popup routing before and after the engine.

use godot_vim::completion::is_completion_prefix;
use godot_vim::completion::maybe_retrigger_completion;
use godot_vim::completion::select_last_after_trigger;
use godot_vim::completion::try_handle_completion;
use godot_vim::completion::CompletionAction;
use godot_vim::completion::PopupState;
use godot_vim::completion::RetriggerAction;
use godot_vim::keymap::Key;
use godot_vim::keymap::KeyEvent;
use godot_vim::keymap::Modifiers;

fn hidden() -> PopupState {
    PopupState { enabled: true, selected_index: -1, option_count: 0 }
}

fn shown(selected: i32, count: i32) -> PopupState {
    PopupState { enabled: true, selected_index: selected, option_count: count }
}

#[test]
fn ctrl_space_forces_popup_in_insert() {
    assert_eq!(try_handle_completion(true, KeyEvent::ctrl('@'), hidden()), (CompletionAction::ForceTrigger, Some(true)));
    let disabled = PopupState { enabled: false, selected_index: -1, option_count: 0 };
    assert_eq!(try_handle_completion(true, KeyEvent::ctrl('@'), disabled), (CompletionAction::Nothing, None));
    assert_eq!(try_handle_completion(false, KeyEvent::ctrl('@'), hidden()), (CompletionAction::Nothing, None));
}

#[test]
fn ctrl_n_and_p_open_hidden_popup() {
    assert_eq!(try_handle_completion(true, KeyEvent::ctrl('n'), hidden()), (CompletionAction::ForceTrigger, Some(true)));
    assert_eq!(
        try_handle_completion(true, KeyEvent::ctrl('p'), hidden()),
        (CompletionAction::ForceTriggerSelectLast, Some(true))
    );
    assert_eq!(select_last_after_trigger(0, 5), Some(4));
    assert_eq!(select_last_after_trigger(-1, 5), None);
    assert_eq!(select_last_after_trigger(0, 0), None);
}

#[test]
fn popup_navigation_wraps() {
    assert_eq!(try_handle_completion(true, KeyEvent::ctrl('n'), shown(4, 5)), (CompletionAction::Select(0), Some(true)));
    assert_eq!(try_handle_completion(true, KeyEvent::ctrl('n'), shown(1, 5)), (CompletionAction::Select(2), Some(true)));
    assert_eq!(try_handle_completion(true, KeyEvent::ctrl('p'), shown(0, 5)), (CompletionAction::Select(4), Some(true)));
    assert_eq!(try_handle_completion(true, KeyEvent::ctrl('p'), shown(3, 5)), (CompletionAction::Select(2), Some(true)));
}

#[test]
fn popup_keys_when_shown() {
    let up = KeyEvent::new(Key::Up, Modifiers::none());
    assert_eq!(try_handle_completion(true, up, shown(0, 3)), (CompletionAction::Nothing, Some(false)));
    let tab = KeyEvent::new(Key::Tab, Modifiers::none());
    assert_eq!(try_handle_completion(true, tab, shown(0, 3)), (CompletionAction::Confirm, Some(true)));
    assert_eq!(try_handle_completion(true, KeyEvent::escape(), shown(0, 3)), (CompletionAction::Cancel, None));
    assert_eq!(try_handle_completion(true, KeyEvent::char('x'), shown(0, 3)), (CompletionAction::Nothing, None));
    // Hidden popup: Tab goes to the engine.
    assert_eq!(try_handle_completion(true, tab, hidden()), (CompletionAction::Nothing, None));
}

#[test]
fn retrigger_after_typing() {
    let prefixes = vec![String::from("."), String::from("::")];
    assert!(is_completion_prefix(&prefixes, '.'));
    assert!(!is_completion_prefix(&prefixes, ':'));
    assert_eq!(maybe_retrigger_completion(true, true, KeyEvent::char('a'), &prefixes), RetriggerAction::Request);
    assert_eq!(maybe_retrigger_completion(true, true, KeyEvent::char('_'), &prefixes), RetriggerAction::Request);
    assert_eq!(maybe_retrigger_completion(true, true, KeyEvent::char('.'), &prefixes), RetriggerAction::Request);
    assert_eq!(maybe_retrigger_completion(true, true, KeyEvent::char(';'), &prefixes), RetriggerAction::Cancel);
    assert_eq!(maybe_retrigger_completion(true, true, KeyEvent::char(' '), &prefixes), RetriggerAction::Cancel);
    let bs = KeyEvent::new(Key::Backspace, Modifiers::none());
    assert_eq!(maybe_retrigger_completion(true, true, bs, &prefixes), RetriggerAction::Request);
    assert_eq!(maybe_retrigger_completion(true, true, KeyEvent::ctrl('a'), &prefixes), RetriggerAction::Nothing);
    assert_eq!(maybe_retrigger_completion(false, true, KeyEvent::char('a'), &prefixes), RetriggerAction::Nothing);
    assert_eq!(maybe_retrigger_completion(true, false, KeyEvent::char('a'), &prefixes), RetriggerAction::Nothing);
}
