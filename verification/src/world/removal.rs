//! Tower removal: on request in builder mode, and after a lost round.

use vstd::prelude::*;
use crate::core_types::geometry::{CellCoord, rect_contains};
use crate::core_types::messages::Event;
use crate::core_types::values::{PlayMode, RemovalError, TowerId};
use super::state::{World, ROUND_LOSS_TOWER_REMOVAL_PERCENT};
use super::towers::{TowerState, entry_of, has_id, index_of_id, lemma_entry_at};

verus! {

/// Number of towers removed after a lost round out of `total`: the removal
/// percentage of the total rounded up, and at least one when any tower stands.
pub open spec fn loss_removal_count(total: int) -> int {
    if total <= 0 {
        0
    } else {
        let numerator = total * ROUND_LOSS_TOWER_REMOVAL_PERCENT;
        let rounded_up = numerator / 100 + if numerator % 100 != 0 { 1int } else { 0int };
        if rounded_up < 1 { 1 } else { rounded_up }
    }
}

/// The `TowerRemoved` event announcing `t`.
pub open spec fn removed_event(t: TowerState) -> Event {
    Event::TowerRemoved { tower: t.id, region: t.region }
}

/// `w1` and `e1` are the world and event list after `w0` and `e0` handled a
/// request to remove the tower `tower`.
pub open spec fn removal_result(w0: World, w1: World, tower: TowerId, e0: Seq<Event>, e1: Seq<Event>) -> bool {
    &&& w0.play_mode != PlayMode::Builder ==> {
        &&& w1 == w0
        &&& e1 =~= e0.push(
            Event::TowerRemovalRejected { tower, reason: RemovalError::InvalidMode },
        )
    }
    &&& w0.play_mode == PlayMode::Builder && !has_id(w0.towers.entries@, tower.0) ==> {
        &&& w1 == w0
        &&& e1 =~= e0.push(
            Event::TowerRemovalRejected { tower, reason: RemovalError::MissingTower },
        )
    }
    &&& w0.play_mode == PlayMode::Builder && has_id(w0.towers.entries@, tower.0) ==> {
        let t = entry_of(w0.towers.entries@, tower.0);
        &&& w1.towers.entries@ == w0.towers.entries@.remove(
            index_of_id(w0.towers.entries@, tower.0),
        )
        &&& w1.towers.next_tower_id == w0.towers.next_tower_id
        &&& forall|c: CellCoord| #[trigger] w1.tower_occupancy.has(c) == (w0.tower_occupancy.has(c) && !rect_contains(t.region, c))
        &&& e1 =~= e0.push(removed_event(t))
        &&& w1 == (World {
            towers: w1.towers,
            tower_occupancy: w1.tower_occupancy,
            navigation_field: w1.navigation_field,
            ..w0
        })
    }
}

/// `w1` and `e1` are the world and event list after `w0` and `e0` removed
/// towers for a lost round.
pub open spec fn loss_removal_result(w0: World, w1: World, e0: Seq<Event>, e1: Seq<Event>) -> bool {
    &&& ({
        let t0 = w0.towers.entries@;
        let n = t0.len() as int;
        let k = loss_removal_count(n);
        &&& 0 <= k <= n
        &&& w1.towers.entries@ == t0.take(n - k)
        &&& w1.towers.next_tower_id == w0.towers.next_tower_id
        &&& forall|c: CellCoord| #[trigger] w1.tower_occupancy.has(c) == (w0.tower_occupancy.has(c) && !(exists|m: int| n - k <= m < n && rect_contains(
            #[trigger] t0[m].region,
            c,
        )))
        &&& e1 =~= e0 + Seq::new(
            k as nat,
            |j: int| removed_event(t0[n - 1 - j]),
        )
        &&& w1 == (World {
            towers: w1.towers,
            tower_occupancy: w1.tower_occupancy,
            navigation_field: w1.navigation_field,
            ..w0
        })
    })
}

impl World {
    /// Removes the tower stored under `id` and clears its footprint, leaving
    /// the navigation field to be recomputed by the caller.
    fn withdraw_tower(&mut self, id: TowerId) -> (r: Option<TowerState>)
        requires
            old(self).state_consistent(),
        ensures
            final(self).state_consistent(),
            r is None <==> !has_id(old(self).towers.entries@, id.0),
            r is None ==> *final(self) == *old(self),
            r matches Some(t) ==> {
                &&& t == entry_of(old(self).towers.entries@, id.0)
                &&& final(self).towers.entries@ == old(self).towers.entries@.remove(
                    index_of_id(old(self).towers.entries@, id.0),
                )
                &&& final(self).towers.next_tower_id == old(self).towers.next_tower_id
                &&& forall|c: CellCoord| #[trigger] final(self).tower_occupancy.has(c) == (old(self).tower_occupancy.has(c) && !rect_contains(t.region, c))
                &&& *final(self) == (World {
                    towers: final(self).towers,
                    tower_occupancy: final(self).tower_occupancy,
                    ..*old(self)
                })
            },
    {
        let ghost w0 = *self;
        if self.towers.position(id).is_none() {
            return None;
        }
        let removed = self.towers.remove(id);
        match removed {
            None => None,
            Some(t) => {
                let ghost k = index_of_id(w0.towers.entries@, id.0);
                proof {
                    assert(has_id(w0.towers.entries@, id.0));
                    lemma_entry_at(w0.towers.entries@, k);
                }
                self.mark_tower_region(t.region, false);
                proof {
                    let e = self.towers.entries@;
                    let e0 = w0.towers.entries@;
                    assert forall|i: int| 0 <= i < e.len() implies {
                        let s = #[trigger] e[i];
                        &&& super::placement::region_within(s.region, self.columns() as int, self.rows() as int)
                        &&& s.id.0 < self.towers.next_tower_id.0
                    } by {
                        let oi = if i < k { i } else { i + 1 };
                        assert(e[i] == e0[oi]);
                    }
                    assert forall|i: int, j: int, c: CellCoord|
                        #![trigger rect_contains(e[i].region, c), rect_contains(e[j].region, c)]
                        0 <= i < e.len() && 0 <= j < e.len() && i != j && rect_contains(e[i].region, c)
                        implies !rect_contains(e[j].region, c) by {
                        let oi = if i < k { i } else { i + 1 };
                        let oj = if j < k { j } else { j + 1 };
                        assert(e[i] == e0[oi]);
                        assert(e[j] == e0[oj]);
                        assert(rect_contains(e0[oi].region, c));
                    }
                    assert forall|c: CellCoord| #[trigger] self.tower_occupancy.has(c) <==> exists|i: int|
                        0 <= i < e.len() && rect_contains(#[trigger] e[i].region, c) by {
                        if self.tower_occupancy.has(c) {
                            assert(w0.tower_occupancy.has(c));
                            let m = choose|m: int| 0 <= m < e0.len() && rect_contains(#[trigger] e0[m].region, c);
                            assert(m != k);
                            let i = if m < k { m } else { m - 1 };
                            assert(e[i] == e0[m]);
                            assert(rect_contains(e[i].region, c));
                        }
                        if exists|i: int| 0 <= i < e.len() && rect_contains(#[trigger] e[i].region, c) {
                            let i = choose|i: int| 0 <= i < e.len() && rect_contains(#[trigger] e[i].region, c);
                            let oi = if i < k { i } else { i + 1 };
                            assert(e[i] == e0[oi]);
                            assert(rect_contains(e0[oi].region, c));
                            assert(oi != k);
                            assert(w0.tower_occupancy.has(c));
                            assert(!rect_contains(e0[k].region, c));
                        }
                    }
                }
                Some(t)
            },
        }
    }

    /// Removes the tower `tower` on request.
    ///
    /// Outside builder mode the request is refused with `InvalidMode`, and an
    /// unknown tower is refused with `MissingTower`, nothing else changing.
    /// Otherwise the tower leaves the registry, its footprint is cleared, the
    /// navigation field is recomputed and `TowerRemoved` is announced.
    pub fn handle_remove_tower(&mut self, tower: TowerId, out_events: &mut Vec<Event>)
        requires
            old(self).well_formed(),
        ensures
            final(self).well_formed(),
            removal_result(*old(self), *final(self), tower, old(out_events)@, final(out_events)@),
    {
        if self.play_mode != PlayMode::Builder {
            out_events.push(Event::TowerRemovalRejected { tower, reason: RemovalError::InvalidMode });
            return;
        }
        match self.withdraw_tower(tower) {
            None => {
                out_events.push(Event::TowerRemovalRejected { tower, reason: RemovalError::MissingTower });
            },
            Some(state) => {
                self.rebuild_navigation();
                out_events.push(Event::TowerRemoved { tower: state.id, region: state.region });
            },
        }
    }

    /// After a lost round, removes the most recently built towers: the
    /// removal percentage of the towers standing, rounded up and at least
    /// one. The towers are removed from the highest identifier down, the
    /// navigation field is recomputed, and one `TowerRemoved` is announced
    /// per tower in removal order.
    pub fn remove_towers_after_loss(&mut self, out_events: &mut Vec<Event>)
        requires
            old(self).well_formed(),
        ensures
            final(self).well_formed(),
            loss_removal_result(*old(self), *final(self), old(out_events)@, final(out_events)@),
    {
        let ghost w0 = *self;
        let ghost e0 = self.towers.entries@;
        let total = self.towers.entries.len();
        if total == 0 {
            assert(self.towers.entries@ == e0.take(0));
            assert(old(out_events)@ + Seq::new(0, |j: int| removed_event(e0[0 - 1 - j])) =~= old(out_events)@);
            return;
        }
        let numerator: u128 = total as u128 * ROUND_LOSS_TOWER_REMOVAL_PERCENT as u128;
        let mut to_remove: u128 = numerator / 100;
        if numerator % 100 != 0 {
            to_remove = to_remove + 1;
        }
        if to_remove < 1 {
            to_remove = 1;
        }
        assert(to_remove == loss_removal_count(total as int));
        assert(to_remove <= total) by (nonlinear_arith)
            requires
                numerator == total * 50,
                to_remove == (if numerator / 100 + (if numerator % 100 != 0 { 1int } else { 0int }) < 1 {
                    1
                } else {
                    numerator / 100 + (if numerator % 100 != 0 { 1int } else { 0int })
                }),
                total >= 1,
        ;
        let count: usize = to_remove as usize;
        let mut removed: Vec<TowerState> = Vec::new();
        let mut j: usize = 0;
        while j < count
            invariant
                self.state_consistent(),
                w0.well_formed(),
                e0 == w0.towers.entries@,
                total == e0.len(),
                1 <= count <= total,
                j <= count,
                self.towers.entries@ == e0.take(total - j),
                self.towers.next_tower_id == w0.towers.next_tower_id,
                removed@.len() == j,
                forall|t: int| 0 <= t < j ==> removed@[t] == e0[total - 1 - t],
                forall|c: CellCoord| #[trigger] self.tower_occupancy.has(c) == (w0.tower_occupancy.has(c)
                    && !(exists|m: int| total - j <= m < total && rect_contains(#[trigger] e0[m].region, c))),
                *self == (World { towers: self.towers, tower_occupancy: self.tower_occupancy, ..w0 }),
            decreases count - j,
        {
            let last = self.towers.entries.len() - 1;
            let id = self.towers.entries[last].id;
            let ghost before = *self;
            proof {
                lemma_entry_at(self.towers.entries@, last as int);
                assert(self.towers.entries@[last as int] == e0[total - 1 - j]);
            }
            let withdrawn = self.withdraw_tower(id);
            match withdrawn {
                Some(t) => {
                    proof {
                        assert(self.towers.entries@ =~= e0.take(total - j - 1));
                        assert forall|c: CellCoord| #[trigger] self.tower_occupancy.has(c) == (w0.tower_occupancy.has(c)
                            && !(exists|m: int| total - (j + 1) <= m < total && rect_contains(
                                #[trigger] e0[m].region,
                                c,
                            ))) by {
                            if rect_contains(e0[total - 1 - j].region, c) {
                                assert(rect_contains(e0[total - 1 - j].region, c));
                            }
                            if exists|m: int| total - (j + 1) <= m < total && rect_contains(#[trigger] e0[m].region, c) {
                                let m = choose|m: int| total - (j + 1) <= m < total && rect_contains(
                                    #[trigger] e0[m].region,
                                    c,
                                );
                                if m != total - 1 - j {
                                    assert(total - j <= m < total && rect_contains(e0[m].region, c));
                                }
                            }
                        }
                    }
                    removed.push(t);
                },
                None => {
                    assert(false);
                },
            }
            j = j + 1;
        }
        self.rebuild_navigation();
        let ghost events0 = out_events@;
        let mut i: usize = 0;
        while i < removed.len()
            invariant
                i <= removed@.len(),
                removed@.len() == count,
                forall|t: int| 0 <= t < count ==> removed@[t] == e0[total - 1 - t],
                out_events@ == events0 + Seq::new(i as nat, |t: int| removed_event(e0[total - 1 - t])),
            decreases removed@.len() - i,
        {
            let t = removed[i];
            out_events.push(Event::TowerRemoved { tower: t.id, region: t.region });
            proof {
                assert(out_events@ =~= events0 + Seq::new((i + 1) as nat, |t: int| removed_event(e0[total - 1 - t])));
            }
            i = i + 1;
        }
    }
}

} // verus!
