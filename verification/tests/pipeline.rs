//! Pipeline outcomes, stage selection, and input-method transitions.

use godot_vim::pipeline::engine_outcome;
use godot_vim::pipeline::ime_action;
use godot_vim::pipeline::pre_engine_outcome;
use godot_vim::pipeline::ImeAction;
use godot_vim::pipeline::PipelineOutcome;

#[test]
fn should_mark_handled_truth_table() {
    assert!(PipelineOutcome::VimdebugStep.should_mark_handled());
    assert!(PipelineOutcome::CompletionConsumed.should_mark_handled());
    assert!(!PipelineOutcome::CompletionDeferred.should_mark_handled());
    assert!(!PipelineOutcome::Passthrough.should_mark_handled());
    assert!(PipelineOutcome::EngineConsumed.should_mark_handled());
    assert!(!PipelineOutcome::EngineIgnored.should_mark_handled());
}

#[test]
fn may_have_moved_cursor_truth_table() {
    assert!(!PipelineOutcome::VimdebugStep.may_have_moved_cursor());
    assert!(PipelineOutcome::CompletionConsumed.may_have_moved_cursor());
    assert!(!PipelineOutcome::CompletionDeferred.may_have_moved_cursor());
    assert!(!PipelineOutcome::Passthrough.may_have_moved_cursor());
    assert!(PipelineOutcome::EngineConsumed.may_have_moved_cursor());
    assert!(!PipelineOutcome::EngineIgnored.may_have_moved_cursor());
}

#[test]
fn log_label_truth_table() {
    assert_eq!(PipelineOutcome::VimdebugStep.log_label(), "vimdebug-step");
    assert_eq!(PipelineOutcome::CompletionConsumed.log_label(), "completion-consumed");
    assert_eq!(PipelineOutcome::CompletionDeferred.log_label(), "completion-deferred");
    assert_eq!(PipelineOutcome::Passthrough.log_label(), "passthrough");
    assert_eq!(PipelineOutcome::EngineConsumed.log_label(), "engine-consumed");
    assert_eq!(PipelineOutcome::EngineIgnored.log_label(), "engine-ignored");
}

#[test]
fn stages_in_priority_order() {
    assert_eq!(pre_engine_outcome(true, Some(true), true), Some(PipelineOutcome::VimdebugStep));
    assert_eq!(pre_engine_outcome(false, Some(true), true), Some(PipelineOutcome::CompletionConsumed));
    assert_eq!(pre_engine_outcome(false, Some(false), true), Some(PipelineOutcome::CompletionDeferred));
    assert_eq!(pre_engine_outcome(false, None, true), Some(PipelineOutcome::Passthrough));
    assert_eq!(pre_engine_outcome(false, None, false), None);
    assert_eq!(engine_outcome(true), PipelineOutcome::EngineConsumed);
    assert_eq!(engine_outcome(false), PipelineOutcome::EngineIgnored);
}

#[test]
fn ime_follows_text_input_modes() {
    // Normal -> Insert.
    assert_eq!(ime_action(false, true, true), ImeAction::ActivateAndPosition);
    // Insert -> Insert.
    assert_eq!(ime_action(true, true, false), ImeAction::Position);
    // Insert -> command line: both take text, no re-activation.
    assert_eq!(ime_action(true, true, true), ImeAction::Position);
    // Insert -> Normal.
    assert_eq!(ime_action(true, false, true), ImeAction::Deactivate);
    assert_eq!(ime_action(false, false, false), ImeAction::Deactivate);
}
