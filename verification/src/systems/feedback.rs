//! Feedback about the player's last tower placement or removal attempt.
//!
//! A rejected placement or removal is remembered and shown until a later
//! placement (respectively removal) succeeds.

use vstd::prelude::*;
use crate::core_types::geometry::CellCoord;
use crate::core_types::messages::Event;
use crate::core_types::values::{PlacementError, RemovalError, TowerId, TowerKind};

verus! {

/// Feedback surfaced to adapters about the most recent tower interaction.
#[derive(Clone, Copy, Debug, PartialEq, Eq, Structural)]
pub enum TowerInteractionFeedback {
    /// A placement request was rejected by the world.
    PlacementRejected { kind: TowerKind, origin: CellCoord, reason: PlacementError },
    /// A removal request was rejected by the world.
    RemovalRejected { tower: TowerId, reason: RemovalError },
}

/// The last rejected placement.
#[derive(Clone, Copy, Debug, PartialEq, Eq, Structural)]
pub struct PlacementRejection {
    pub kind: TowerKind,
    pub origin: CellCoord,
    pub reason: PlacementError,
}

/// The last rejected removal.
#[derive(Clone, Copy, Debug, PartialEq, Eq, Structural)]
pub struct RemovalRejection {
    pub tower: TowerId,
    pub reason: RemovalError,
}

/// What is remembered of the player's tower interactions.
#[derive(Clone, Copy, Debug, PartialEq, Eq, Structural)]
pub struct TowerFeedback {
    pub last_placement_rejection: Option<PlacementRejection>,
    pub last_removal_rejection: Option<RemovalRejection>,
    pub feedback: Option<TowerInteractionFeedback>,
}

/// The feedback after `event`: a rejection is remembered and shown; a
/// placed (removed) tower clears the last placement (removal) rejection and
/// hides the feedback if it was about a placement (removal).
pub open spec fn feedback_step(f: TowerFeedback, event: Event) -> TowerFeedback {
    match event {
        Event::TowerPlacementRejected { kind, origin, reason } => TowerFeedback {
            last_placement_rejection: Some(PlacementRejection { kind, origin, reason }),
            feedback: Some(TowerInteractionFeedback::PlacementRejected { kind, origin, reason }),
            ..f
        },
        Event::TowerRemovalRejected { tower, reason } => TowerFeedback {
            last_removal_rejection: Some(RemovalRejection { tower, reason }),
            feedback: Some(TowerInteractionFeedback::RemovalRejected { tower, reason }),
            ..f
        },
        Event::TowerPlaced { .. } => TowerFeedback {
            last_placement_rejection: None,
            feedback: if f.feedback matches Some(TowerInteractionFeedback::PlacementRejected { .. }) {
                None
            } else {
                f.feedback
            },
            ..f
        },
        Event::TowerRemoved { .. } => TowerFeedback {
            last_removal_rejection: None,
            feedback: if f.feedback matches Some(TowerInteractionFeedback::RemovalRejected { .. }) {
                None
            } else {
                f.feedback
            },
            ..f
        },
        _ => f,
    }
}

/// The feedback after `events`, in order.
pub open spec fn feedback_after(f: TowerFeedback, events: Seq<Event>) -> TowerFeedback
    decreases events.len(),
{
    if events.len() == 0 {
        f
    } else {
        feedback_step(feedback_after(f, events.drop_last()), events.last())
    }
}

impl TowerFeedback {
    /// No interaction remembered.
    pub fn new() -> (f: Self)
        ensures
            f.last_placement_rejection is None,
            f.last_removal_rejection is None,
            f.feedback is None,
    {
        TowerFeedback { last_placement_rejection: None, last_removal_rejection: None, feedback: None }
    }

    /// Records the tower interactions that `events` report (see [`feedback_after`]).
    pub fn record_tower_feedback(&mut self, events: &[Event])
        ensures
            *final(self) == feedback_after(*old(self), events@),
    {
        let mut i: usize = 0;
        while i < events.len()
            invariant
                i <= events@.len(),
                *self == feedback_after(*old(self), events@.take(i as int)),
            decreases events@.len() - i,
        {
            proof {
                assert(events@.take(i + 1).drop_last() =~= events@.take(i as int));
                assert(events@.take(i + 1).last() == events@[i as int]);
            }
            match &events[i] {
                Event::TowerPlacementRejected { kind, origin, reason } => {
                    self.last_placement_rejection = Some(
                        PlacementRejection { kind: *kind, origin: *origin, reason: *reason },
                    );
                    self.feedback = Some(
                        TowerInteractionFeedback::PlacementRejected { kind: *kind, origin: *origin, reason: *reason },
                    );
                },
                Event::TowerRemovalRejected { tower, reason } => {
                    self.last_removal_rejection = Some(RemovalRejection { tower: *tower, reason: *reason });
                    self.feedback = Some(TowerInteractionFeedback::RemovalRejected { tower: *tower, reason: *reason });
                },
                Event::TowerPlaced { .. } => {
                    self.last_placement_rejection = None;
                    if let Some(TowerInteractionFeedback::PlacementRejected { .. }) = self.feedback {
                        self.feedback = None;
                    }
                },
                Event::TowerRemoved { .. } => {
                    self.last_removal_rejection = None;
                    if let Some(TowerInteractionFeedback::RemovalRejected { .. }) = self.feedback {
                        self.feedback = None;
                    }
                },
                _ => {},
            }
            i = i + 1;
        }
        assert(events@.take(events@.len() as int) =~= events@);
    }
}

} // verus!
