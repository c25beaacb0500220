//! Bugs inside the maze, kept ordered by identifier.

use vstd::prelude::*;
use crate::core_types::geometry::CellCoord;
use crate::core_types::values::{BugColor, BugId, Health};

verus! {

/// A bug inside the maze.
#[derive(Clone, Copy, Debug)]
pub struct Bug {
    pub id: BugId,
    pub cell: CellCoord,
    pub color: BugColor,
    pub max_health: Health,
    pub health: Health,
    pub step_ms: u32,
    pub accum_ms: u32,
}

/// A bug just released on `cell`: full health, one full step of time accumulated.
pub open spec fn fresh_bug(id: BugId, cell: CellCoord, color: BugColor, health: Health, step_ms: u32) -> Bug {
    Bug { id, cell, color, max_health: health, health, step_ms, accum_ms: step_ms }
}

impl Bug {
    /// A freshly spawned bug: full health and ready to step at once.
    pub fn new(id: BugId, cell: CellCoord, color: BugColor, health: Health, step_ms: u32) -> (b: Self)
        ensures
            b == fresh_bug(id, cell, color, health, step_ms),
    {
        Bug { id, cell, color, max_health: health, health, step_ms, accum_ms: step_ms }
    }

    /// Whether the bug has accumulated enough time for its next step.
    pub fn ready_for_step(&self) -> (b: bool)
        ensures
            b == (self.accum_ms >= self.step_ms),
    {
        self.accum_ms >= self.step_ms
    }

    /// Whether the bug's health is exhausted.
    pub fn is_dead(&self) -> (b: bool)
        ensures
            b == (self.health.0 == 0),
    {
        self.health.0 == 0
    }
}

/// Identifiers strictly increase along `s`.
pub open spec fn bug_ids_increasing(s: Seq<Bug>) -> bool {
    forall|i: int, j: int| 0 <= i < j < s.len() ==> s[i].id.0 < s[j].id.0
}

/// Some bug of `s` has identifier `id`.
pub open spec fn has_bug(s: Seq<Bug>, id: u32) -> bool {
    exists|i: int| 0 <= i < s.len() && #[trigger] s[i].id.0 == id
}

/// Position of the bug with identifier `id` (meaningful when `has_bug`).
pub open spec fn index_of_bug(s: Seq<Bug>, id: u32) -> int {
    choose|i: int| 0 <= i < s.len() && #[trigger] s[i].id.0 == id
}

/// With increasing identifiers, the bug at position `i` is found by its identifier.
pub proof fn lemma_bug_at(s: Seq<Bug>, i: int)
    requires
        bug_ids_increasing(s),
        0 <= i < s.len(),
    ensures
        has_bug(s, s[i].id.0),
        index_of_bug(s, s[i].id.0) == i,
{
    assert(s[i].id.0 == s[i].id.0);
    let j = index_of_bug(s, s[i].id.0);
    if j != i {
        assert(s[j].id.0 == s[i].id.0);
    }
}

/// Position of the bug with identifier `id`, if present.
pub fn find_bug(bugs: &Vec<Bug>, id: BugId) -> (r: Option<usize>)
    requires
        bug_ids_increasing(bugs@),
    ensures
        r is None <==> !has_bug(bugs@, id.0),
        r matches Some(i) ==> i < bugs@.len() && bugs@[i as int].id == id && index_of_bug(bugs@, id.0) == i,
{
    let mut i: usize = 0;
    while i < bugs.len()
        invariant
            i <= bugs@.len(),
            bug_ids_increasing(bugs@),
            forall|t: int| 0 <= t < i ==> bugs@[t].id.0 != id.0,
        decreases bugs@.len() - i,
    {
        if bugs[i].id.0 == id.0 {
            proof {
                lemma_bug_at(bugs@, i as int);
            }
            return Some(i);
        }
        i = i + 1;
    }
    None
}

} // verus!
