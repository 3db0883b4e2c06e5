//! Transient controller state, host UI requests, and step keys.

use godot_vim::controller::handle_host_pending_ui_action;
use godot_vim::controller::process_step_key;
use godot_vim::controller::PendingUiAction;
use godot_vim::controller::TransientShellState;
use godot_vim::perf::Microseconds;
use godot_vim::perf::PerfTracker;
use godot_vim::status::GlobalState;
use godot_vim::vimdebug::VimdebugMode;

#[test]
fn reset_clears_everything() {
    let mut t = TransientShellState::new();
    t.count_operation();
    t.count_operation();
    assert_eq!(t.operations_this_cycle, 2);
    t.vimdebug.set_mode(VimdebugMode::Step);
    t.vimdebug.load_step_effects(vec![String::from("a")]);
    t.pending_step_effects = Some(1);
    t.pending_ui_actions.push(PendingUiAction::OpenMappingDialog);
    t.reset();
    assert_eq!(t.operations_this_cycle, 0);
    assert!(t.pending_ui_actions.is_empty());
    assert_eq!(t.vimdebug.mode(), VimdebugMode::Off);
    assert!(!t.vimdebug.has_pending_steps());
    assert_eq!(t.pending_step_effects, None);
}

#[test]
fn operation_count_saturates() {
    let mut t = TransientShellState::new();
    t.operations_this_cycle = u32::MAX;
    t.count_operation();
    assert_eq!(t.operations_this_cycle, u32::MAX);
}

#[test]
fn plugin_requests_are_queued() {
    let mut t = TransientShellState::new();
    let mut perf = PerfTracker::new(8, Microseconds(2000));
    let mut g = GlobalState::new();
    handle_host_pending_ui_action(&mut t, &mut perf, &mut g, PendingUiAction::SourceConfigFile);
    handle_host_pending_ui_action(
        &mut t,
        &mut perf,
        &mut g,
        PendingUiAction::ShowTooltip { symbol: String::from("foo"), line: 1, col: 2, warp_pos: None },
    );
    assert_eq!(t.pending_ui_actions.len(), 2);
    assert_eq!(g.message, None);
    let taken = t.take_pending_ui_actions();
    assert_eq!(taken.len(), 2);
    assert!(matches!(taken[0], PendingUiAction::SourceConfigFile));
    assert!(t.pending_ui_actions.is_empty());
}

#[test]
fn controller_requests_show_messages() {
    let mut t = TransientShellState::new();
    let mut perf = PerfTracker::new(8, Microseconds(2000));
    let mut g = GlobalState::new();
    handle_host_pending_ui_action(&mut t, &mut perf, &mut g, PendingUiAction::ShowUndoTree);
    assert_eq!(g.message.as_deref(), Some("Use :undotree to display the undo tree"));
    handle_host_pending_ui_action(&mut t, &mut perf, &mut g, PendingUiAction::PerfReset);
    assert_eq!(g.message.as_deref(), Some(":perf reset"));
    handle_host_pending_ui_action(&mut t, &mut perf, &mut g, PendingUiAction::PerfReport);
    assert!(g.message.as_deref().unwrap().starts_with(":perf (0 frames)"));
    handle_host_pending_ui_action(&mut t, &mut perf, &mut g, PendingUiAction::Vimdebug(String::from("vimdebug watch")));
    assert_eq!(t.vimdebug.mode(), VimdebugMode::Watch);
    assert!(t.pending_ui_actions.is_empty());
}

fn stepping(n: usize) -> TransientShellState {
    let mut t = TransientShellState::new();
    t.vimdebug.set_mode(VimdebugMode::Step);
    t.vimdebug.load_step_effects((0..n).map(|i| format!("e{i}")).collect());
    t.pending_step_effects = Some(n);
    t
}

#[test]
fn step_next_applies_one_and_ends_at_last() {
    let mut t = stepping(2);
    let r = process_step_key(&mut t, Some('n'));
    assert_eq!(r.apply, vec![0]);
    assert!(r.invalidate_cache);
    assert_eq!(t.pending_step_effects, Some(2));
    let r = process_step_key(&mut t, Some('n'));
    assert_eq!(r.apply, vec![1]);
    assert_eq!(t.pending_step_effects, None);
    assert!(!t.vimdebug.has_pending_steps());
}

#[test]
fn step_continue_applies_rest() {
    let mut t = stepping(3);
    process_step_key(&mut t, Some('n'));
    let r = process_step_key(&mut t, Some('p'));
    assert!(r.apply.is_empty());
    assert!(!r.invalidate_cache);
    let r = process_step_key(&mut t, Some('c'));
    assert_eq!(r.apply, vec![1, 2]);
    assert_eq!(t.pending_step_effects, None);
}

#[test]
fn step_quit_and_other_keys() {
    let mut t = stepping(2);
    let r = process_step_key(&mut t, Some('x'));
    assert!(r.apply.is_empty());
    assert_eq!(t.pending_step_effects, Some(2));
    let r = process_step_key(&mut t, Some('q'));
    assert!(r.apply.is_empty());
    assert_eq!(t.pending_step_effects, None);
    assert!(!t.vimdebug.has_pending_steps());
}

#[test]
fn perf_report_shows_the_tracker_report() {
    let mut t = TransientShellState::new();
    let mut perf = PerfTracker::new(3, Microseconds(2000));
    let mut g = GlobalState::new();
    let expected = perf.format_report();
    handle_host_pending_ui_action(&mut t, &mut perf, &mut g, PendingUiAction::PerfReport);
    assert_eq!(g.message.as_deref(), Some(expected.as_str()));
}

#[test]
fn step_prev_moves_back_and_next_reapplies_nothing_twice() {
    let mut t = stepping(3);
    assert_eq!(process_step_key(&mut t, Some('n')).apply, vec![0]);
    assert_eq!(process_step_key(&mut t, Some('n')).apply, vec![1]);
    process_step_key(&mut t, Some('p'));
    process_step_key(&mut t, Some('p'));
    assert_eq!(process_step_key(&mut t, Some('n')).apply, vec![2]);
    assert_eq!(t.pending_step_effects, None);
}
