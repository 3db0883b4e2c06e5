//! Per-keystroke controller state and the decisions that route the host's
//! deferred UI requests and `:vimdebug` step keys.

use crate::perf::PerfTracker;
use crate::status::handle_show_message;
use crate::status::GlobalState;
use crate::vimdebug::handle_vimdebug_command;
use crate::vimdebug::vimdebug_command_spec;
use crate::vimdebug::VimdebugMode;
use crate::vimdebug::VimdebugState;
use vstd::prelude::*;

verus! {

/// Requests the host makes during a key that need the controller or the
/// plugin layer.
pub enum PendingUiAction {
    /// Open the key-mapping dialog (plugin layer).
    OpenMappingDialog,
    /// Re-read the config file (plugin layer).
    SourceConfigFile,
    /// Show the documentation tooltip (plugin layer), warping the mouse to
    /// `warp_pos` where one is known.
    ShowTooltip { symbol: String, line: i32, col: i32, warp_pos: Option<(i32, i32)> },
    /// `:undotree` from the old host command.
    ShowUndoTree,
    /// `:perf`.
    PerfReport,
    /// `:perf reset`.
    PerfReset,
    /// A `:vimdebug` command.
    Vimdebug(String),
}

impl PendingUiAction {
    /// Whether the plugin layer, not the controller, carries the action out.
    pub open spec fn for_plugin(&self) -> bool {
        self is OpenMappingDialog || self is SourceConfigFile || self is ShowTooltip
    }
}

/// State that lives for one key (or one sequence of keys) and is dropped on
/// every cleanup: the runaway guard, the plugin's pending requests, the
/// `:vimdebug` state, and how many effects step mode is holding.
pub struct TransientShellState {
    pub operations_this_cycle: u32,
    pub pending_ui_actions: Vec<PendingUiAction>,
    pub vimdebug: VimdebugState,
    pub pending_step_effects: Option<usize>,
}

impl TransientShellState {
    pub open spec fn wf(&self) -> bool {
        self.vimdebug.wf()
    }

    /// The clean state.
    pub open spec fn is_clean(&self) -> bool {
        &&& self.operations_this_cycle == 0
        &&& self.pending_ui_actions@.len() == 0
        &&& self.vimdebug.mode_spec() == VimdebugMode::Off
        &&& self.vimdebug.is_cleared()
        &&& self.pending_step_effects is None
    }

    pub fn new() -> (r: Self)
        ensures
            r.wf(),
            r.is_clean(),
    {
        TransientShellState {
            operations_this_cycle: 0,
            pending_ui_actions: Vec::new(),
            vimdebug: VimdebugState::new(),
            pending_step_effects: None,
        }
    }

    /// Back to the clean state, whatever was there.
    pub fn reset(&mut self)
        requires
            old(self).wf(),
        ensures
            final(self).wf(),
            final(self).is_clean(),
    {
        self.operations_this_cycle = 0;
        self.pending_ui_actions = Vec::new();
        self.vimdebug.set_mode(VimdebugMode::Off);
        self.pending_step_effects = None;
    }

    /// Count one engine operation of this cycle (saturating).
    pub fn count_operation(&mut self)
        ensures
            final(self).operations_this_cycle == (if old(self).operations_this_cycle < u32::MAX {
                old(self).operations_this_cycle + 1
            } else {
                u32::MAX as int
            }),
            final(self).pending_ui_actions == old(self).pending_ui_actions,
            final(self).vimdebug == old(self).vimdebug,
            final(self).pending_step_effects == old(self).pending_step_effects,
    {
        if self.operations_this_cycle < u32::MAX {
            self.operations_this_cycle = self.operations_this_cycle + 1;
        }
    }

    /// Hand the plugin layer's pending requests over, leaving none.
    pub fn take_pending_ui_actions(&mut self) -> (r: Vec<PendingUiAction>)
        ensures
            r@ == old(self).pending_ui_actions@,
            final(self).pending_ui_actions@.len() == 0,
            final(self).operations_this_cycle == old(self).operations_this_cycle,
            final(self).vimdebug == old(self).vimdebug,
            final(self).pending_step_effects == old(self).pending_step_effects,
    {
        let mut taken: Vec<PendingUiAction> = Vec::new();
        std::mem::swap(&mut taken, &mut self.pending_ui_actions);
        taken
    }
}

/// Carry out a host request: plugin-layer requests are queued for the
/// plugin; `:perf` shows the report (or resets and says so); the old undo
/// tree request points to `:undotree`; `:vimdebug` commands set the mode.
pub fn handle_host_pending_ui_action(
    transient: &mut TransientShellState,
    perf: &mut PerfTracker,
    globals: &mut GlobalState,
    action: PendingUiAction,
)
    requires
        old(transient).wf(),
        old(perf).wf(),
    ensures
        final(transient).wf(),
        final(perf).wf(),
        action.for_plugin() ==> final(transient).pending_ui_actions@ == old(transient).pending_ui_actions@.push(action),
        !action.for_plugin() ==> final(transient).pending_ui_actions@ == old(transient).pending_ui_actions@,
        action is ShowUndoTree ==> (final(globals).message matches Some(m) && m@ == "Use :undotree to display the undo tree"@),
        action is PerfReport ==> *final(perf) == *old(perf) && (final(globals).message matches Some(m) && m@
            == old(perf).report_text()),
        action is PerfReset ==> final(perf).held() == 0 && (final(globals).message matches Some(m) && m@ == ":perf reset"@),
        !(action is PerfReset) ==> *final(perf) == *old(perf),
        !(action is Vimdebug) ==> final(transient).vimdebug == old(transient).vimdebug,
        final(transient).operations_this_cycle == old(transient).operations_this_cycle,
        final(transient).pending_step_effects == old(transient).pending_step_effects,
        action.for_plugin() ==> *final(globals) == *old(globals),
        action matches PendingUiAction::Vimdebug(cmd) ==> match vimdebug_command_spec(cmd@, old(transient).vimdebug.mode_spec()) {
            Some((m, msg)) => {
                &&& final(transient).vimdebug.mode_spec() == m
                &&& (m == VimdebugMode::Off ==> final(transient).vimdebug.is_cleared())
                &&& (m != VimdebugMode::Off ==> final(transient).vimdebug.keeps_captures(old(transient).vimdebug))
                &&& final(globals).message matches Some(t) && t@ == msg
                &&& !final(globals).message_is_error
                &&& final(globals).hlsearch_enabled == old(globals).hlsearch_enabled
            },
            None => final(transient).vimdebug == old(transient).vimdebug && *final(globals) == *old(globals),
        },
{
    match action {
        PendingUiAction::OpenMappingDialog => transient.pending_ui_actions.push(PendingUiAction::OpenMappingDialog),
        PendingUiAction::SourceConfigFile => transient.pending_ui_actions.push(PendingUiAction::SourceConfigFile),
        PendingUiAction::ShowTooltip { symbol, line, col, warp_pos } => {
            transient.pending_ui_actions.push(PendingUiAction::ShowTooltip { symbol, line, col, warp_pos });
        },
        PendingUiAction::ShowUndoTree => {
            handle_show_message(globals, "Use :undotree to display the undo tree");
        },
        PendingUiAction::PerfReport => {
            let msg = perf.format_report();
            handle_show_message(globals, msg.as_str());
        },
        PendingUiAction::PerfReset => {
            perf.reset();
            handle_show_message(globals, ":perf reset");
        },
        PendingUiAction::Vimdebug(cmd) => {
            handle_vimdebug_command(&mut transient.vimdebug, globals, cmd.as_str());
        },
    }
}

/// What a key does while `:vimdebug` holds effects.
pub struct StepKeyResult {
    /// Indices of the held effects to apply now, in order.
    pub apply: Vec<usize>,
    /// Whether the editor's text cache must be refreshed afterwards.
    pub invalidate_cache: bool,
}

/// The first index at or after `i` whose effect was not applied yet, or
/// `a.len()` when there is none.
pub open spec fn first_unapplied_from(a: Seq<bool>, i: int) -> int
    decreases a.len() - i,
{
    if i >= a.len() {
        a.len() as int
    } else if !a[i] {
        i
    } else {
        first_unapplied_from(a, i + 1)
    }
}

proof fn lemma_first_unapplied_from(a: Seq<bool>, i: int)
    requires
        0 <= i <= a.len(),
    ensures
        i <= first_unapplied_from(a, i) <= a.len(),
        first_unapplied_from(a, i) < a.len() ==> !a[first_unapplied_from(a, i)],
        forall|k: int| i <= k < first_unapplied_from(a, i) ==> a[k],
    decreases a.len() - i,
{
    if i < a.len() && a[i] {
        lemma_first_unapplied_from(a, i + 1);
    }
}

/// The effects a `c` key applies: the unapplied ones from index `i` on
/// (below `a.len()`), limited to the `held` effects, in increasing order.
pub open spec fn continue_apply(a: Seq<bool>, i: int, held: Option<usize>, r: Seq<usize>) -> bool {
    match held {
        None => r.len() == 0,
        Some(h) => {
            &&& forall|x: int, y: int| 0 <= x < y < r.len() ==> r[x] < r[y]
            &&& forall|x: int| 0 <= x < r.len() ==> i <= #[trigger] r[x] < a.len() && !a[r[x] as int] && r[x] < h
            &&& forall|j: int| i <= j < a.len() && !a[j] && j < h ==> r.contains(j as usize)
        },
    }
}

/// A key in step mode: `n` applies the next unapplied effect (and ends the
/// stepping once nothing is left), `p` moves the display back, `c` applies
/// all remaining effects and ends, `q` ends without applying more; every
/// other key is swallowed. Only effects that are held are applied.
pub fn process_step_key(transient: &mut TransientShellState, ch: Option<char>) -> (r: StepKeyResult)
    requires
        old(transient).wf(),
    ensures
        final(transient).wf(),
        r.invalidate_cache == (ch == Some('n') || ch == Some('c')),
        final(transient).vimdebug.mode_spec() == old(transient).vimdebug.mode_spec(),
        ch == Some('n') ==> ({
            let a = old(transient).vimdebug.applied_spec();
            let f = first_unapplied_from(a, old(transient).vimdebug.index_spec());
            let a2 = if f < a.len() { a.update(f, true) } else { a };
            let i2 = if f < a.len() { f + 1 } else { a.len() as int };
            &&& r.apply@ == (if f < a.len() && (old(transient).pending_step_effects matches Some(h) && f < h) {
                seq![f as usize]
            } else {
                Seq::<usize>::empty()
            })
            &&& a.len() > 0 && i2 < a.len() ==> {
                &&& final(transient).vimdebug.applied_spec() == a2
                &&& final(transient).vimdebug.index_spec() == i2
                &&& final(transient).pending_step_effects == old(transient).pending_step_effects
            }
            &&& !(a.len() > 0 && i2 < a.len()) ==> {
                &&& final(transient).vimdebug.applied_spec().len() == 0
                &&& final(transient).vimdebug.index_spec() == 0
                &&& final(transient).pending_step_effects is None
            }
        }),
        ch == Some('p') ==> {
            &&& r.apply@.len() == 0
            &&& final(transient).vimdebug.applied_spec() == old(transient).vimdebug.applied_spec()
            &&& final(transient).vimdebug.index_spec() == (if old(transient).vimdebug.index_spec() > 0 {
                old(transient).vimdebug.index_spec() - 1
            } else {
                0
            })
            &&& final(transient).pending_step_effects == old(transient).pending_step_effects
        },
        ch == Some('c') ==> {
            &&& continue_apply(
                old(transient).vimdebug.applied_spec(),
                old(transient).vimdebug.index_spec(),
                old(transient).pending_step_effects,
                r.apply@,
            )
            &&& final(transient).vimdebug.applied_spec().len() == 0
            &&& final(transient).vimdebug.index_spec() == 0
            &&& final(transient).pending_step_effects is None
        },
        ch == Some('q') ==> {
            &&& r.apply@.len() == 0
            &&& final(transient).vimdebug.applied_spec().len() == 0
            &&& final(transient).vimdebug.index_spec() == 0
            &&& final(transient).pending_step_effects is None
        },
        !(ch == Some('n') || ch == Some('p') || ch == Some('c') || ch == Some('q')) ==> {
            &&& r.apply@.len() == 0
            &&& *final(transient) == *old(transient)
        },
{
    let mut apply: Vec<usize> = Vec::new();
    match ch {
        Some('n') => {
            proof {
                transient.vimdebug.lemma_index_within();
                lemma_first_unapplied_from(transient.vimdebug.applied_spec(), transient.vimdebug.index_spec());
            }
            let ghost a = transient.vimdebug.applied_spec();
            let ghost i0 = transient.vimdebug.index_spec();
            let step = transient.vimdebug.step_next();
            proof {
                let f = first_unapplied_from(a, i0);
                match step {
                    Some(j) => {
                        if (j as int) < f {
                            assert(a[j as int]);
                        }
                        if f < (j as int) {
                            assert(a[f]);
                        }
                        assert(f == j);
                    },
                    None => {
                        if f < a.len() {
                            assert(a[f]);
                        }
                    },
                }
            }
            if let Some(idx) = step {
                if let Some(held) = transient.pending_step_effects {
                    if idx < held {
                        apply.push(idx);
                    }
                }
            }
            if !transient.vimdebug.has_pending_steps() {
                transient.vimdebug.step_quit();
                transient.pending_step_effects = None;
            }
        },
        Some('p') => {
            transient.vimdebug.step_prev();
        },
        Some('c') => {
            proof {
                transient.vimdebug.lemma_index_within();
            }
            let held = transient.pending_step_effects;
            transient.pending_step_effects = None;
            let remaining = transient.vimdebug.step_continue();
            if let Some(n) = held {
                let mut i: usize = 0;
                while i < remaining.len()
                    invariant
                        i <= remaining@.len(),
                        forall|a: int, b: int| 0 <= a < b < remaining@.len() ==> remaining@[a] < remaining@[b],
                        forall|k: int| 0 <= k < apply@.len() ==> #[trigger] apply@[k] < n,
                        forall|k: int| 0 <= k < apply@.len() ==> exists|j: int| 0 <= j < i && remaining@[j] == #[trigger] apply@[k],
                        forall|a: int, b: int| 0 <= a < b < apply@.len() ==> apply@[a] < apply@[b],
                        apply@.len() > 0 ==> exists|j: int| 0 <= j < i && remaining@[j] == apply@.last(),
                        forall|j: int| 0 <= j < i && #[trigger] remaining@[j] < n ==> apply@.contains(remaining@[j]),
                    decreases remaining@.len() - i,
                {
                    let idx = remaining[i];
                    if idx < n {
                        proof {
                            if apply@.len() > 0 {
                                let j = choose|j: int| 0 <= j < i && remaining@[j] == apply@.last();
                                assert(remaining@[j] < remaining@[i as int]);
                            }
                        }
                        let ghost before = apply@;
                        apply.push(idx);
                        proof {
                            assert forall|k: int| 0 <= k < apply@.len() implies exists|j: int|
                                0 <= j < i + 1 && remaining@[j] == #[trigger] apply@[k] by {
                                if k == apply@.len() - 1 {
                                    assert(remaining@[i as int] == apply@[k]);
                                } else {
                                    let j = choose|j: int| 0 <= j < i && remaining@[j] == apply@[k];
                                    assert(remaining@[j] == apply@[k]);
                                }
                            }
                            assert(remaining@[i as int] == apply@.last());
                            assert forall|j: int| 0 <= j < i + 1 && #[trigger] remaining@[j] < n implies apply@.contains(
                                remaining@[j],
                            ) by {
                                if j == i {
                                    assert(apply@[apply@.len() - 1] == remaining@[j]);
                                } else {
                                    assert(before.contains(remaining@[j]));
                                    let q = choose|q: int| 0 <= q < before.len() && before[q] == remaining@[j];
                                    assert(apply@[q] == remaining@[j]);
                                }
                            }
                        }
                    }
                    i = i + 1;
                }
                proof {
                    assert forall|j: int|
                        old(transient).vimdebug.index_spec() <= j < old(transient).vimdebug.applied_spec().len()
                            && !old(transient).vimdebug.applied_spec()[j] && j < n implies apply@.contains(j as usize) by {
                        assert(remaining@.contains(j as usize));
                        let q = choose|q: int| 0 <= q < remaining@.len() && remaining@[q] == j as usize;
                        assert(remaining@[q] < n);
                    }
                    assert forall|k: int| 0 <= k < apply@.len() implies {
                        &&& old(transient).vimdebug.index_spec() <= #[trigger] apply@[k] < old(transient).vimdebug.applied_spec().len()
                        &&& !old(transient).vimdebug.applied_spec()[apply@[k] as int]
                    } by {
                        let j = choose|j: int| 0 <= j < remaining@.len() && remaining@[j] == apply@[k];
                        assert(remaining@[j] == apply@[k]);
                    }
                }
            }
            transient.vimdebug.step_quit();
        },
        Some('q') => {
            transient.vimdebug.step_quit();
            transient.pending_step_effects = None;
        },
        _ => {},
    }
    let invalidate_cache = match ch {
        Some('n') | Some('c') => true,
        _ => false,
    };
    StepKeyResult { apply, invalidate_cache }
}

} // verus!
