//! Key routing for the editor's autocomplete popup.
//!
//! The popup is driven by the editor's own input handling, which never sees
//! a key that Vim consumed. So completion keys are looked at before the
//! engine (trigger, navigate, confirm, dismiss), and after the engine the
//! popup is re-triggered or dismissed as the typed character asks.

use crate::input::char_is_control;
use crate::input::unicode_control;
use crate::keymap::Key;
use crate::keymap::KeyEvent;
use crate::strs::char_is_alphanumeric;
use crate::strs::unicode_alphanumeric;
use vstd::prelude::*;

verus! {

/// What to do with the popup.
#[derive(Debug, Clone, Copy, PartialEq, Eq, Structural)]
pub enum CompletionAction {
    Nothing,
    /// Ask the editor for completions, showing the popup.
    ForceTrigger,
    /// Ask for completions, then select the last one (Vim's Ctrl-P searches
    /// backwards); see [`select_last_after_trigger`].
    ForceTriggerSelectLast,
    /// Confirm the selected completion (and reconcile the text with the
    /// engine).
    Confirm,
    /// Dismiss the popup.
    Cancel,
    /// Select the completion with this index.
    Select(i32),
}

/// The editor's popup state before the key.
#[derive(Debug, Clone, Copy, PartialEq, Eq, Structural)]
pub struct PopupState {
    /// Autocomplete is enabled for the editor.
    pub enabled: bool,
    /// Index of the selected completion; negative when no popup is shown.
    pub selected_index: i32,
    /// Number of completions offered (saturated to `i32`).
    pub option_count: i32,
}

impl PopupState {
    pub open spec fn active(self) -> bool {
        self.selected_index >= 0
    }
}

pub open spec fn is_ctrl_char(key: KeyEvent, c: char) -> bool {
    key.modifiers.ctrl && key.key == Key::Char(c)
}

/// The decision before the engine sees `key`: the popup action, and
/// `Some(consumed)` when completion handled the key (`Some(false)` lets the
/// editor's list navigation have it), `None` when the engine should.
///
/// In Insert or Replace mode: Ctrl-Space (Ctrl-@) forces the popup; Ctrl-N
/// and Ctrl-P open it when hidden (Ctrl-P selecting the last entry), all
/// only when autocomplete is enabled. With the popup shown: Up and Down
/// navigate it, Tab and Enter confirm, Escape dismisses it and still goes
/// to the engine, Ctrl-N and Ctrl-P move the selection with wrap-around.
pub open spec fn completion_spec(in_insert: bool, key: KeyEvent, p: PopupState) -> (CompletionAction, Option<bool>) {
    if in_insert && is_ctrl_char(key, '@') {
        if !p.enabled {
            (CompletionAction::Nothing, None)
        } else {
            (CompletionAction::ForceTrigger, Some(true))
        }
    } else if in_insert && is_ctrl_char(key, 'n') && !p.active() {
        if !p.enabled {
            (CompletionAction::Nothing, None)
        } else {
            (CompletionAction::ForceTrigger, Some(true))
        }
    } else if in_insert && is_ctrl_char(key, 'p') && !p.active() {
        if !p.enabled {
            (CompletionAction::Nothing, None)
        } else {
            (CompletionAction::ForceTriggerSelectLast, Some(true))
        }
    } else if !in_insert || !p.active() {
        (CompletionAction::Nothing, None)
    } else if key.key == Key::Up || key.key == Key::Down {
        (CompletionAction::Nothing, Some(false))
    } else if key.key == Key::Tab || key.key == Key::Enter {
        (CompletionAction::Confirm, Some(true))
    } else if key.key == Key::Escape {
        (CompletionAction::Cancel, None)
    } else if is_ctrl_char(key, 'n') {
        if p.option_count > 0 {
            (
                CompletionAction::Select(
                    if p.selected_index + 1 >= p.option_count {
                        0
                    } else {
                        (p.selected_index + 1) as i32
                    },
                ),
                Some(true),
            )
        } else {
            (CompletionAction::Nothing, Some(true))
        }
    } else if is_ctrl_char(key, 'p') {
        if p.option_count > 0 {
            (
                CompletionAction::Select(
                    if p.selected_index <= 0 {
                        (p.option_count - 1) as i32
                    } else {
                        (p.selected_index - 1) as i32
                    },
                ),
                Some(true),
            )
        } else {
            (CompletionAction::Nothing, Some(true))
        }
    } else {
        (CompletionAction::Nothing, None)
    }
}

/// Decide the completion handling of `key` (see [`completion_spec`]).
pub fn try_handle_completion(in_insert: bool, key: KeyEvent, p: PopupState) -> (r: (CompletionAction, Option<bool>))
    requires
        p.selected_index < i32::MAX,
    ensures
        r == completion_spec(in_insert, key, p),
{
    let ctrl = key.modifiers.ctrl;
    let active = p.selected_index >= 0;
    if in_insert && ctrl && key.key == Key::Char('@') {
        if !p.enabled {
            return (CompletionAction::Nothing, None);
        }
        return (CompletionAction::ForceTrigger, Some(true));
    }
    if in_insert && ctrl && key.key == Key::Char('n') && !active {
        if !p.enabled {
            return (CompletionAction::Nothing, None);
        }
        return (CompletionAction::ForceTrigger, Some(true));
    }
    if in_insert && ctrl && key.key == Key::Char('p') && !active {
        if !p.enabled {
            return (CompletionAction::Nothing, None);
        }
        return (CompletionAction::ForceTriggerSelectLast, Some(true));
    }
    if !in_insert || !active {
        return (CompletionAction::Nothing, None);
    }
    match key.key {
        Key::Up | Key::Down => (CompletionAction::Nothing, Some(false)),
        Key::Tab | Key::Enter => (CompletionAction::Confirm, Some(true)),
        Key::Escape => (CompletionAction::Cancel, None),
        _ => {
            if ctrl && key.key == Key::Char('n') {
                if p.option_count > 0 {
                    let next = if p.selected_index + 1 >= p.option_count {
                        0
                    } else {
                        p.selected_index + 1
                    };
                    (CompletionAction::Select(next), Some(true))
                } else {
                    (CompletionAction::Nothing, Some(true))
                }
            } else if ctrl && key.key == Key::Char('p') {
                if p.option_count > 0 {
                    let prev = if p.selected_index <= 0 {
                        p.option_count - 1
                    } else {
                        p.selected_index - 1
                    };
                    (CompletionAction::Select(prev), Some(true))
                } else {
                    (CompletionAction::Nothing, Some(true))
                }
            } else {
                (CompletionAction::Nothing, None)
            }
        },
    }
}

/// After a forced trigger for Ctrl-P: select the last completion when the
/// popup came up with entries.
pub fn select_last_after_trigger(selected_index: i32, option_count: i32) -> (r: Option<i32>)
    ensures
        selected_index >= 0 && option_count > 0 ==> r == Some((option_count - 1) as i32),
        !(selected_index >= 0 && option_count > 0) ==> r is None,
{
    if selected_index >= 0 && option_count > 0 {
        Some(option_count - 1)
    } else {
        None
    }
}

/// With the popup shown in Insert mode, the keys that work it act on it:
/// Tab and Enter accept the selected completion (and are consumed), Up and
/// Down go to the editor's own list navigation, and Escape closes the popup
/// and still reaches the engine. Outside Insert mode, or with no popup,
/// these keys are left to the engine untouched.
pub proof fn lemma_popup_owns_its_keys(in_insert: bool, key: KeyEvent, p: PopupState)
    ensures
        in_insert && p.active() && (key.key == Key::Tab || key.key == Key::Enter) ==> completion_spec(in_insert, key, p)
            == (CompletionAction::Confirm, Some(true)),
        in_insert && p.active() && key.key == Key::Escape ==> completion_spec(in_insert, key, p) == (
            CompletionAction::Cancel,
            None::<bool>,
        ),
        in_insert && p.active() && (key.key == Key::Up || key.key == Key::Down) ==> completion_spec(in_insert, key, p)
            == (CompletionAction::Nothing, Some(false)),
        !(in_insert && p.active()) && (key.key == Key::Tab || key.key == Key::Enter || key.key == Key::Escape
            || key.key == Key::Up || key.key == Key::Down) ==> completion_spec(in_insert, key, p) == (
            CompletionAction::Nothing,
            None::<bool>,
        ),
{
}

/// Ctrl-N and Ctrl-P keep the selection within the list and wrap around.
pub proof fn lemma_selection_stays_in_list(in_insert: bool, key: KeyEvent, p: PopupState)
    requires
        0 <= p.selected_index < p.option_count,
    ensures
        completion_spec(in_insert, key, p).0 matches CompletionAction::Select(i) ==> 0 <= i < p.option_count,
{
}

// ---------------------------------------------------------------------------
// After the engine
// ---------------------------------------------------------------------------

/// Whether `c` is one of the language's completion trigger characters
/// (such as `.`).
pub open spec fn is_prefix_char(prefixes: Seq<Seq<char>>, c: char) -> bool {
    exists|i: int| 0 <= i < prefixes.len() && #[trigger] prefixes[i] == seq![c]
}

/// Whether `ch` is one of `prefixes`.
pub fn is_completion_prefix(prefixes: &Vec<String>, ch: char) -> (r: bool)
    ensures
        r == is_prefix_char(prefixes@.map_values(|p: String| p@), ch),
{
    let ghost pv = prefixes@.map_values(|p: String| p@);
    let mut i: usize = 0;
    while i < prefixes.len()
        invariant
            i <= prefixes@.len(),
            pv == prefixes@.map_values(|p: String| p@),
            forall|j: int| 0 <= j < i ==> #[trigger] pv[j] != seq![ch],
        decreases prefixes@.len() - i,
    {
        let p: &str = prefixes[i].as_str();
        proof {
            assert(pv[i as int] == p@);
        }
        if p.unicode_len() == 1 && p.get_char(0) == ch {
            proof {
                assert(p@ =~= seq![ch]);
            }
            return true;
        }
        proof {
            if p@ == seq![ch] {
                assert(p@.len() == 1);
                assert(p@[0] == ch);
            }
        }
        i = i + 1;
    }
    false
}

/// What happens to the popup after the engine typed a key.
#[derive(Debug, Clone, Copy, PartialEq, Eq, Structural)]
pub enum RetriggerAction {
    Nothing,
    /// Re-run completion (refiltering the popup).
    Request,
    /// Dismiss the popup.
    Cancel,
}

/// In Insert or Replace mode, with autocomplete on: a typed character with
/// no modifier re-filters the popup when it is a word character or a
/// completion prefix, and dismisses it otherwise; Backspace re-filters.
pub open spec fn retrigger_spec(enabled: bool, in_insert: bool, key: KeyEvent, prefix: bool) -> RetriggerAction {
    if !enabled || !in_insert {
        RetriggerAction::Nothing
    } else if key.key is Char && !unicode_control(key.key->Char_0) && !key.modifiers.ctrl && !key.modifiers.alt
        && !key.modifiers.shift && !key.modifiers.meta {
        let c = key.key->Char_0;
        if unicode_alphanumeric(c) || c == '_' || prefix {
            RetriggerAction::Request
        } else {
            RetriggerAction::Cancel
        }
    } else if key.key == Key::Backspace {
        RetriggerAction::Request
    } else {
        RetriggerAction::Nothing
    }
}

/// The popup's follow-up after the engine processed `key`; `prefixes` are
/// the language's completion trigger characters.
pub fn maybe_retrigger_completion(code_complete_enabled: bool, in_insert: bool, key: KeyEvent, prefixes: &Vec<String>) -> (r: RetriggerAction)
    ensures
        r == retrigger_spec(
            code_complete_enabled,
            in_insert,
            key,
            key.key is Char && is_prefix_char(prefixes@.map_values(|p: String| p@), key.key->Char_0),
        ),
{
    if !code_complete_enabled || !in_insert {
        return RetriggerAction::Nothing;
    }
    match key.key {
        Key::Char(c) => {
            if !char_is_control(c) && key.modifiers.is_empty() {
                if char_is_alphanumeric(c) || c == '_' || is_completion_prefix(prefixes, c) {
                    RetriggerAction::Request
                } else {
                    RetriggerAction::Cancel
                }
            } else {
                RetriggerAction::Nothing
            }
        },
        Key::Backspace => RetriggerAction::Request,
        _ => RetriggerAction::Nothing,
    }
}

} // verus!
