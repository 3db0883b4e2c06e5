//! The key pipeline's decisions: which stage takes a key, what its outcome
//! means for the editor, and how the input method follows the mode.

use vstd::prelude::*;

verus! {

/// How one key press was handled.
#[derive(Debug, Clone, Copy, PartialEq, Eq, Structural)]
pub enum PipelineOutcome {
    /// Consumed by `:vimdebug` step navigation.
    VimdebugStep,
    /// The completion popup took the key.
    CompletionConsumed,
    /// The completion popup let the key through to the editor.
    CompletionDeferred,
    /// The key bypassed the engine.
    Passthrough,
    /// The engine took the key.
    EngineConsumed,
    /// The engine saw the key and left it.
    EngineIgnored,
}

impl PipelineOutcome {
    /// Whether the editor should treat the key as handled.
    pub fn should_mark_handled(&self) -> (r: bool)
        ensures
            r == (*self == PipelineOutcome::VimdebugStep || *self == PipelineOutcome::CompletionConsumed
                || *self == PipelineOutcome::EngineConsumed),
    {
        matches!(self, PipelineOutcome::VimdebugStep | PipelineOutcome::CompletionConsumed | PipelineOutcome::EngineConsumed)
    }

    /// Whether the caret may have moved (a confirmed completion always
    /// moves it), so that the next caret change is expected.
    pub fn may_have_moved_cursor(&self) -> (r: bool)
        ensures
            r == (*self == PipelineOutcome::CompletionConsumed || *self == PipelineOutcome::EngineConsumed),
    {
        matches!(self, PipelineOutcome::CompletionConsumed | PipelineOutcome::EngineConsumed)
    }

    /// A short name for logs.
    pub fn log_label(&self) -> (r: &'static str)
        ensures
            r@ == match *self {
                PipelineOutcome::VimdebugStep => "vimdebug-step"@,
                PipelineOutcome::CompletionConsumed => "completion-consumed"@,
                PipelineOutcome::CompletionDeferred => "completion-deferred"@,
                PipelineOutcome::Passthrough => "passthrough"@,
                PipelineOutcome::EngineConsumed => "engine-consumed"@,
                PipelineOutcome::EngineIgnored => "engine-ignored"@,
            },
    {
        match self {
            PipelineOutcome::VimdebugStep => "vimdebug-step",
            PipelineOutcome::CompletionConsumed => "completion-consumed",
            PipelineOutcome::CompletionDeferred => "completion-deferred",
            PipelineOutcome::Passthrough => "passthrough",
            PipelineOutcome::EngineConsumed => "engine-consumed",
            PipelineOutcome::EngineIgnored => "engine-ignored",
        }
    }
}

/// Which stage takes a key, in order: `:vimdebug` step navigation while
/// effects are held; the completion popup (`Some(consumed)` when it
/// intercepted the key); passthrough. `None`: the engine processes it.
pub open spec fn pre_engine_spec(stepping: bool, completion: Option<bool>, passthrough: bool) -> Option<PipelineOutcome> {
    if stepping {
        Some(PipelineOutcome::VimdebugStep)
    } else if completion is Some {
        if completion->0 {
            Some(PipelineOutcome::CompletionConsumed)
        } else {
            Some(PipelineOutcome::CompletionDeferred)
        }
    } else if passthrough {
        Some(PipelineOutcome::Passthrough)
    } else {
        None
    }
}

pub fn pre_engine_outcome(stepping: bool, completion: Option<bool>, passthrough: bool) -> (r: Option<PipelineOutcome>)
    ensures
        r == pre_engine_spec(stepping, completion, passthrough),
{
    if stepping {
        return Some(PipelineOutcome::VimdebugStep);
    }
    match completion {
        Some(true) => Some(PipelineOutcome::CompletionConsumed),
        Some(false) => Some(PipelineOutcome::CompletionDeferred),
        None => {
            if passthrough {
                Some(PipelineOutcome::Passthrough)
            } else {
                None
            }
        },
    }
}

/// The outcome of a key the engine processed.
pub fn engine_outcome(consumed: bool) -> (r: PipelineOutcome)
    ensures
        consumed ==> r == PipelineOutcome::EngineConsumed,
        !consumed ==> r == PipelineOutcome::EngineIgnored,
{
    if consumed {
        PipelineOutcome::EngineConsumed
    } else {
        PipelineOutcome::EngineIgnored
    }
}

/// What the input method does after a key.
#[derive(Debug, Clone, Copy, PartialEq, Eq, Structural)]
pub enum ImeAction {
    /// Entering a text-input mode: enable it, then follow the caret.
    ActivateAndPosition,
    /// Still in a text-input mode: follow the caret.
    Position,
    /// Not in a text-input mode: disable it (now and once more deferred).
    Deactivate,
}

/// Insert, Replace and the command line take typed text through the input
/// method; it is enabled on entering one of them from another kind of mode
/// and disabled everywhere else.
pub fn ime_action(before_text_input: bool, after_text_input: bool, mode_changed: bool) -> (r: ImeAction)
    ensures
        !after_text_input ==> r == ImeAction::Deactivate,
        after_text_input && mode_changed && !before_text_input ==> r == ImeAction::ActivateAndPosition,
        after_text_input && !(mode_changed && !before_text_input) ==> r == ImeAction::Position,
{
    if after_text_input {
        if mode_changed && !before_text_input {
            ImeAction::ActivateAndPosition
        } else {
            ImeAction::Position
        }
    } else {
        ImeAction::Deactivate
    }
}

} // verus!
