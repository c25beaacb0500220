//! The bootstrap system: what the experience shows when it starts.

use vstd::prelude::*;
use crate::core_types::layout::{Target, TileGrid};
use crate::core_types::ordering::is_stable_key_order;
use crate::core_types::values::WELCOME_BANNER;
use crate::core_types::views::BugView;
use crate::world::query::{self, living_snapshots};
use crate::world::state::World;

verus! {

/// Produces the data required to greet the player.
#[derive(Clone, Copy, Debug, Default)]
pub struct Bootstrap;

impl Bootstrap {
    /// The banner shown when the experience starts.
    pub fn welcome_banner(&self, world: &World) -> (r: &'static str)
        ensures
            r@ == WELCOME_BANNER@,
    {
        query::welcome_banner(world)
    }

    /// The tile grid configuration required for rendering.
    pub fn tile_grid<'world>(&self, world: &'world World) -> (r: &'world TileGrid)
        ensures
            *r == world.tile_grid,
    {
        query::tile_grid(world)
    }

    /// The bugs inhabiting the maze, ordered by identifier.
    pub fn bugs(&self, world: &World) -> (v: BugView)
        ensures
            is_stable_key_order(living_snapshots(world.bugs@), v.snapshots@),
            v.snapshots@.len() == living_snapshots(world.bugs@).len(),
    {
        query::bug_view(world)
    }

    /// The target carved into the wall.
    pub fn target<'world>(&self, world: &'world World) -> (r: &'world Target)
        ensures
            *r == world.target,
    {
        query::target(world)
    }
}

} // verus!
