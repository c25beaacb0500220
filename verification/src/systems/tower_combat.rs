//! Firing commands for towers that have a target and are ready to fire.

use vstd::prelude::*;
use crate::core_types::layout::TowerTarget;
use crate::core_types::messages::Command;
use crate::core_types::values::{PlayMode, TowerId};
use crate::core_types::views::{TowerCooldownSnapshot, TowerCooldownView};

verus! {

/// Position of the first cooldown snapshot of `tower` in `cooldowns`, if any.
pub open spec fn first_cooldown(cooldowns: Seq<TowerCooldownSnapshot>, tower: TowerId) -> Option<int> {
    if exists|i: int| 0 <= i < cooldowns.len() && cooldowns[i].tower == tower {
        Some(
            choose|i: int|
                0 <= i < cooldowns.len() && cooldowns[i].tower == tower && forall|j: int|
                    0 <= j < i ==> #[trigger] cooldowns[j].tower != tower,
        )
    } else {
        None
    }
}

/// Tower `tower` is known and ready to fire according to `cooldowns`.
pub open spec fn ready_to_fire(cooldowns: Seq<TowerCooldownSnapshot>, tower: TowerId) -> bool {
    match first_cooldown(cooldowns, tower) {
        Some(i) => cooldowns[i].ready_in.spec_nanos() == 0,
        None => false,
    }
}

/// The firing commands for `targets`, in order: one per target whose tower
/// is ready to fire.
pub open spec fn fire_commands(targets: Seq<TowerTarget>, cooldowns: Seq<TowerCooldownSnapshot>) -> Seq<Command>
    decreases targets.len(),
{
    if targets.len() == 0 {
        Seq::empty()
    } else {
        let rest = fire_commands(targets.drop_last(), cooldowns);
        let t = targets.last();
        if ready_to_fire(cooldowns, t.tower) {
            rest.push(Command::FireProjectile { tower: t.tower, target: t.bug })
        } else {
            rest
        }
    }
}

/// Tower combat system that queues firing commands for ready towers.
#[derive(Debug)]
pub struct TowerCombat {}

impl TowerCombat {
    /// Creates a new tower combat system.
    pub fn new() -> (r: Self) {
        TowerCombat {}
    }

    /// Appends a `FireProjectile` command for every target whose tower is
    /// ready to fire, in target order; nothing outside attack mode.
    pub fn handle(
        &mut self,
        play_mode: PlayMode,
        tower_cooldowns: TowerCooldownView,
        tower_targets: &[TowerTarget],
        out: &mut Vec<Command>,
    )
        ensures
            final(out)@ == old(out)@ + if play_mode == PlayMode::Attack {
                fire_commands(tower_targets@, tower_cooldowns.snapshots@)
            } else {
                Seq::<Command>::empty()
            },
    {
        if play_mode != PlayMode::Attack {
            assert(old(out)@ + Seq::<Command>::empty() =~= old(out)@);
            return;
        }
        let cooldowns = tower_cooldowns.into_vec();
        let ghost start = out@;
        let mut i: usize = 0;
        assert(tower_targets@.take(0) =~= Seq::<TowerTarget>::empty());
        while i < tower_targets.len()
            invariant
                i <= tower_targets@.len(),
                cooldowns@ == tower_cooldowns.snapshots@,
                out@ == start + fire_commands(tower_targets@.take(i as int), cooldowns@),
            decreases tower_targets@.len() - i,
        {
            let target = tower_targets[i];
            proof {
                assert(tower_targets@.take(i + 1).drop_last() =~= tower_targets@.take(i as int));
                assert(tower_targets@.take(i + 1).last() == target);
            }
            match find_cooldown(&cooldowns, target.tower) {
                Some(k) => {
                    if cooldowns[k].ready_in.is_zero() {
                        out.push(Command::FireProjectile { tower: target.tower, target: target.bug });
                    }
                },
                None => {},
            }
            proof {
                assert(out@ =~= start + fire_commands(tower_targets@.take(i + 1), cooldowns@));
            }
            i = i + 1;
        }
        assert(tower_targets@.take(tower_targets@.len() as int) =~= tower_targets@);
    }
}

/// Position of the first cooldown snapshot of `tower`.
fn find_cooldown(cooldowns: &Vec<TowerCooldownSnapshot>, tower: TowerId) -> (r: Option<usize>)
    ensures
        r matches Some(i) ==> i < cooldowns@.len() && first_cooldown(cooldowns@, tower) == Some(i as int),
        r is None ==> first_cooldown(cooldowns@, tower) is None,
{
    let mut i: usize = 0;
    while i < cooldowns.len()
        invariant
            i <= cooldowns@.len(),
            forall|j: int| 0 <= j < i ==> #[trigger] cooldowns@[j].tower != tower,
        decreases cooldowns@.len() - i,
    {
        if cooldowns[i].tower.0 == tower.0 {
            proof {
                let c = choose|k: int|
                    0 <= k < cooldowns@.len() && cooldowns@[k].tower == tower && forall|j: int|
                        0 <= j < k ==> #[trigger] cooldowns@[j].tower != tower;
                assert(c == i) by {
                    if c < i {
                        assert(cooldowns@[c].tower != tower);
                    }
                    if c > i {
                        assert(cooldowns@[i as int].tower != tower);
                    }
                }
            }
            return Some(i);
        }
        i = i + 1;
    }
    None
}

} // verus!
