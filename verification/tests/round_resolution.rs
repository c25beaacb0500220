use maze_defence::core_types::values::RoundOutcome;
use maze_defence::systems::rounds::{resolve_round_step, RoundEvents, RoundState};

fn awaiting_wave() -> RoundState {
    RoundState { awaiting_resolution: true, outcome_pending: false, wave_active: true, resolve_queued: false }
}

fn quiet() -> RoundEvents {
    RoundEvents { round_lost: false, wave_finished: false, bugs_after_wave: true, bugs_at_end: true }
}

#[test]
fn lost_round_queues_a_loss_and_ends_the_wave() {
    let (state, outcome) = resolve_round_step(awaiting_wave(), RoundEvents { round_lost: true, ..quiet() });
    assert_eq!(outcome, Some(RoundOutcome::Loss));
    assert!(!state.wave_active && !state.awaiting_resolution && state.outcome_pending && state.resolve_queued);
}

#[test]
fn finished_wave_without_bugs_queues_a_win() {
    let events = RoundEvents { wave_finished: true, bugs_after_wave: false, bugs_at_end: false, ..quiet() };
    let (state, outcome) = resolve_round_step(awaiting_wave(), events);
    assert_eq!(outcome, Some(RoundOutcome::Win));
    assert!(!state.wave_active && !state.awaiting_resolution);
}

#[test]
fn finished_wave_with_bugs_left_keeps_waiting() {
    let events = RoundEvents { wave_finished: true, ..quiet() };
    let (state, outcome) = resolve_round_step(awaiting_wave(), events);
    assert_eq!(outcome, None);
    assert!(!state.wave_active && state.awaiting_resolution && !state.outcome_pending);
    let (state, outcome) = resolve_round_step(state, RoundEvents { bugs_at_end: false, ..quiet() });
    assert_eq!(outcome, Some(RoundOutcome::Win));
    assert!(!state.awaiting_resolution);
}

#[test]
fn pending_outcome_is_not_queued_twice() {
    let pending = RoundState { outcome_pending: true, ..awaiting_wave() };
    let (state, outcome) = resolve_round_step(pending, RoundEvents { round_lost: true, ..quiet() });
    assert_eq!(outcome, None);
    assert!(state.outcome_pending && !state.resolve_queued);
    let queued = RoundState { resolve_queued: true, ..awaiting_wave() };
    let (state, outcome) = resolve_round_step(queued, RoundEvents { round_lost: true, ..quiet() });
    assert_eq!(outcome, None);
    assert!(state.outcome_pending && state.resolve_queued);
}

#[test]
fn quiet_pass_changes_nothing() {
    let (state, outcome) = resolve_round_step(awaiting_wave(), quiet());
    assert_eq!(outcome, None);
    assert_eq!(state, awaiting_wave());
}
