//! Round resolution: when the adapter queues a round's outcome.
//!
//! Each pass over a frame's events may end the round: a lost round ends it
//! at once, and a round whose wave has finished spawning ends in a win once
//! no bug is left. At most one outcome command waits to be applied.

use vstd::prelude::*;
use crate::core_types::values::RoundOutcome;

verus! {

/// What the adapter tracks about the current round.
#[derive(Clone, Copy, Debug, PartialEq, Eq, Structural)]
pub struct RoundState {
    /// A wave was launched and its outcome has not been settled yet.
    pub awaiting_resolution: bool,
    /// An outcome was already queued (or found queued) for this round.
    pub outcome_pending: bool,
    /// A wave is still spawning its bugs.
    pub wave_active: bool,
    /// The adapter's command queue already holds a round-resolution command.
    pub resolve_queued: bool,
}

/// What one pass over a frame's events observed.
#[derive(Clone, Copy, Debug, PartialEq, Eq, Structural)]
pub struct RoundEvents {
    /// The events report that the round was lost.
    pub round_lost: bool,
    /// The active wave spawned its last bug during this pass.
    pub wave_finished: bool,
    /// Bugs remain in the world once the wave's spawns were applied.
    pub bugs_after_wave: bool,
    /// Bugs remain in the world at the end of the pass.
    pub bugs_at_end: bool,
}

/// The pass tries to settle the round: it was lost, or its wave finished
/// with no bug left, or it awaits resolution with no wave and no bug left.
pub open spec fn settles(state: RoundState, events: RoundEvents) -> bool {
    let wave_done = state.wave_active && !events.round_lost && events.wave_finished;
    ||| events.round_lost
    ||| wave_done && !events.bugs_after_wave
    ||| state.awaiting_resolution && !(state.wave_active && !wave_done) && !events.bugs_at_end
}

/// The state after one pass and the outcome it queues (see [`resolve_round_step`]).
pub open spec fn round_step(state: RoundState, events: RoundEvents) -> (RoundState, Option<RoundOutcome>) {
    let settled = settles(state, events);
    let queued = if settled && !state.outcome_pending && !state.resolve_queued {
        Some(if events.round_lost { RoundOutcome::Loss } else { RoundOutcome::Win })
    } else {
        None
    };
    (
        RoundState {
            awaiting_resolution: state.awaiting_resolution && !settled,
            outcome_pending: state.outcome_pending || settled,
            wave_active: state.wave_active && !events.round_lost && !events.wave_finished,
            resolve_queued: state.resolve_queued || queued is Some,
        },
        queued,
    )
}

/// Queues `outcome` unless one is pending or already queued; the outcome is
/// pending afterwards either way. Reports whether it was queued.
fn queue_outcome(state: &mut RoundState, outcome: RoundOutcome) -> (queued: bool)
    ensures
        queued == (!old(state).outcome_pending && !old(state).resolve_queued),
        final(state).outcome_pending,
        final(state).resolve_queued == (old(state).resolve_queued || queued),
        final(state).awaiting_resolution == old(state).awaiting_resolution,
        final(state).wave_active == old(state).wave_active,
{
    if state.outcome_pending {
        return false;
    }
    if state.resolve_queued {
        state.outcome_pending = true;
        return false;
    }
    state.resolve_queued = true;
    state.outcome_pending = true;
    true
}

/// Settles the round for one pass over a frame's events: a loss is queued
/// first, then a win when the finished wave left no bug, then a win when
/// the round awaits resolution with no wave and no bug left. Returns the
/// next state and the outcome queued in this pass, if any.
pub fn resolve_round_step(state: RoundState, events: RoundEvents) -> (r: (RoundState, Option<RoundOutcome>))
    ensures
        r.0.wave_active == (state.wave_active && !events.round_lost && !events.wave_finished),
        r.0.awaiting_resolution == (state.awaiting_resolution && !settles(state, events)),
        r.0.outcome_pending == (state.outcome_pending || settles(state, events)),
        r.1 == (if settles(state, events) && !state.outcome_pending && !state.resolve_queued {
            Some(if events.round_lost { RoundOutcome::Loss } else { RoundOutcome::Win })
        } else {
            None::<RoundOutcome>
        }),
        r.0.resolve_queued == (state.resolve_queued || r.1 is Some),
        r == round_step(state, events),
        events.round_lost ==> r.0.outcome_pending && !r.0.awaiting_resolution && !r.0.wave_active,
        events.round_lost && !state.outcome_pending && !state.resolve_queued ==> r.1 == Some(RoundOutcome::Loss)
            && r.0.resolve_queued,
        r.1 == Some(RoundOutcome::Loss) ==> events.round_lost,
        r.1 is Some ==> !state.outcome_pending && !state.resolve_queued,
        !events.round_lost && state.wave_active && events.wave_finished && !events.bugs_after_wave
            && !state.outcome_pending && !state.resolve_queued ==> r.1 == Some(RoundOutcome::Win),
        !events.round_lost && !state.wave_active && state.awaiting_resolution && !events.bugs_at_end
            && !state.outcome_pending && !state.resolve_queued ==> r.1 == Some(RoundOutcome::Win),
        !events.round_lost && !events.wave_finished && (state.wave_active || !state.awaiting_resolution
            || events.bugs_at_end) ==> r == (state, None::<RoundOutcome>),
{
    let mut s = state;
    let mut queued: Option<RoundOutcome> = None;
    if events.round_lost {
        s.wave_active = false;
        s.awaiting_resolution = false;
        if queue_outcome(&mut s, RoundOutcome::Loss) {
            queued = Some(RoundOutcome::Loss);
        }
    }
    if s.wave_active && events.wave_finished {
        s.wave_active = false;
        if !events.bugs_after_wave {
            let pushed = queue_outcome(&mut s, RoundOutcome::Win);
            if pushed {
                queued = Some(RoundOutcome::Win);
            }
            if pushed || s.outcome_pending {
                s.awaiting_resolution = false;
            }
        }
    }
    if s.awaiting_resolution && !s.wave_active && !events.bugs_at_end {
        let pushed = queue_outcome(&mut s, RoundOutcome::Win);
        if pushed {
            queued = Some(RoundOutcome::Win);
        }
        if pushed || s.outcome_pending {
            s.awaiting_resolution = false;
        }
    }
    (s, queued)
}

/// A reported loss always settles the round: the outcome is pending, the
/// round no longer awaits resolution and no wave spawns; the loss itself is
/// queued unless an outcome was already pending or queued, whatever the
/// wave was doing.
pub proof fn lemma_lost_round_is_resolved(state: RoundState, events: RoundEvents)
    requires
        events.round_lost,
    ensures
        round_step(state, events).0.outcome_pending,
        !round_step(state, events).0.awaiting_resolution,
        !round_step(state, events).0.wave_active,
        round_step(state, events).1 == (if !state.outcome_pending && !state.resolve_queued {
            Some(RoundOutcome::Loss)
        } else {
            None::<RoundOutcome>
        }),
{
}

/// A loss is queued only for a pass that reports the round lost, and a win
/// only for one that does not.
pub proof fn lemma_outcome_matches_events(state: RoundState, events: RoundEvents)
    ensures
        round_step(state, events).1 == Some(RoundOutcome::Loss) ==> events.round_lost,
        round_step(state, events).1 == Some(RoundOutcome::Win) ==> !events.round_lost,
{
}

/// At most one outcome is queued per round: once a pass has queued one, a
/// later pass queues nothing, whatever it observes.
pub proof fn lemma_outcome_queued_once(state: RoundState, first: RoundEvents, second: RoundEvents)
    requires
        round_step(state, first).1 is Some,
    ensures
        round_step(round_step(state, first).0, second).1 is None,
        round_step(round_step(state, first).0, second).0.outcome_pending,
{
}

/// A pass that neither reports a loss nor finishes the wave, in a round that
/// is not ready to be resolved (a wave still spawns, nothing awaits
/// resolution, or bugs remain), changes nothing and queues nothing.
pub proof fn lemma_quiet_pass_changes_nothing(state: RoundState, events: RoundEvents)
    requires
        !events.round_lost,
        !events.wave_finished,
        state.wave_active || !state.awaiting_resolution || events.bugs_at_end,
    ensures
        round_step(state, events) == (state, None::<RoundOutcome>),
{
}

} // verus!
