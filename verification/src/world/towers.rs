//! Tower registry: placed towers ordered by identifier, and identifier allocation.

use vstd::prelude::*;
use crate::core_types::geometry::{CellRect, CellRectSize};
use crate::core_types::time::Duration;
use crate::core_types::values::{TowerId, TowerKind};

verus! {

/// A tower stored inside the world.
#[derive(Clone, Copy, Debug)]
pub struct TowerState {
    /// Identifier allocated by the world for the tower.
    pub id: TowerId,
    /// Kind of tower that was constructed.
    pub kind: TowerKind,
    /// Region of cells occupied by the tower.
    pub region: CellRect,
    /// Time left before the tower may fire again.
    pub cooldown_remaining: Duration,
}

/// Identifiers strictly increase along `s`.
pub open spec fn ids_increasing(s: Seq<TowerState>) -> bool {
    forall|i: int, j: int| 0 <= i < j < s.len() ==> s[i].id.0 < s[j].id.0
}

/// Some entry of `s` has identifier `id`.
pub open spec fn has_id(s: Seq<TowerState>, id: u32) -> bool {
    exists|i: int| 0 <= i < s.len() && #[trigger] s[i].id.0 == id
}

/// Position of the entry with identifier `id` (meaningful when `has_id`).
pub open spec fn index_of_id(s: Seq<TowerState>, id: u32) -> int {
    choose|i: int| 0 <= i < s.len() && #[trigger] s[i].id.0 == id
}

/// The entry with identifier `id` (meaningful when `has_id`).
pub open spec fn entry_of(s: Seq<TowerState>, id: u32) -> TowerState {
    s[index_of_id(s, id)]
}

/// With increasing identifiers, the entry at position `i` is the entry of its identifier.
pub proof fn lemma_entry_at(s: Seq<TowerState>, i: int)
    requires
        ids_increasing(s),
        0 <= i < s.len(),
    ensures
        has_id(s, s[i].id.0),
        index_of_id(s, s[i].id.0) == i,
        entry_of(s, s[i].id.0) == s[i],
{
    assert(s[i].id.0 == s[i].id.0);
    let j = index_of_id(s, s[i].id.0);
    if j != i {
        assert(s[j].id.0 == s[i].id.0);
    }
}

/// `after` is `before` with `state` inserted at some position, when no
/// entry of `before` carried its identifier.
pub open spec fn fresh_insertion(before: Seq<TowerState>, state: TowerState, after: Seq<TowerState>) -> bool {
    !has_id(before, state.id.0) ==> exists|j: int| 0 <= j <= before.len() && after == before.insert(j, state)
}

/// `after` and `removed` are what removing identifier `id` from `before` gives.
pub open spec fn removal_of(before: Seq<TowerState>, id: u32, removed: Option<TowerState>, after: Seq<TowerState>) -> bool {
    &&& removed is None <==> !has_id(before, id)
    &&& removed is None ==> after == before
    &&& removed is Some ==> removed->0 == entry_of(before, id) && after == before.remove(index_of_id(before, id))
}

/// Registry that stores towers and manages identifier allocation.
#[derive(Clone, Debug)]
pub struct TowerRegistry {
    pub entries: Vec<TowerState>,
    pub next_tower_id: TowerId,
}

impl TowerRegistry {
    /// Entries are ordered by strictly increasing identifier.
    pub open spec fn well_formed(&self) -> bool {
        ids_increasing(self.entries@)
    }

    /// Creates an empty tower registry with a reset identifier counter.
    pub fn new() -> (r: Self)
        ensures
            r.well_formed(),
            r.entries@.len() == 0,
            r.next_tower_id.0 == 0,
    {
        Self { entries: Vec::new(), next_tower_id: TowerId(0) }
    }

    /// Allocates a fresh tower identifier: the counter's value, after which
    /// the counter advances by one (saturating at `u32::MAX`).
    pub fn allocate(&mut self) -> (id: TowerId)
        ensures
            id == old(self).next_tower_id,
            final(self).next_tower_id.0 == if old(self).next_tower_id.0 == u32::MAX {
                u32::MAX as int
            } else {
                old(self).next_tower_id.0 + 1
            },
            final(self).entries@ == old(self).entries@,
    {
        let id = self.next_tower_id;
        let next = if id.0 == u32::MAX { u32::MAX } else { id.0 + 1 };
        self.next_tower_id = TowerId(next);
        id
    }

    /// Stores `state` under its identifier, replacing any tower stored under
    /// the same identifier.
    pub fn insert(&mut self, state: TowerState)
        requires
            old(self).well_formed(),
        ensures
            final(self).well_formed(),
            final(self).next_tower_id == old(self).next_tower_id,
            forall|id: u32| #[trigger] has_id(final(self).entries@, id) == (id == state.id.0 || has_id(
                old(self).entries@,
                id,
            )),
            forall|id: u32| has_id(final(self).entries@, id) ==> #[trigger] entry_of(final(self).entries@, id)
                == if id == state.id.0 {
                state
            } else {
                entry_of(old(self).entries@, id)
            },
            fresh_insertion(old(self).entries@, state, final(self).entries@),
    {
        let ghost old_entries = self.entries@;
        let mut j: usize = 0;
        while j < self.entries.len() && self.entries[j].id.0 < state.id.0
            invariant
                j <= self.entries@.len(),
                self.entries@ == old_entries,
                forall|t: int| 0 <= t < j ==> self.entries@[t].id.0 < state.id.0,
            decreases self.entries@.len() - j,
        {
            j = j + 1;
        }
        if j < self.entries.len() && self.entries[j].id.0 == state.id.0 {
            self.entries.set(j, state);
            proof {
                assert forall|a: int, b: int| 0 <= a < b < self.entries@.len() implies self.entries@[a].id.0
                    < self.entries@[b].id.0 by {
                    assert(old_entries[a].id.0 < old_entries[b].id.0);
                }
                self.lemma_update_lookup(old_entries, j as int, state);
            }
        } else {
            proof {
                assert forall|t: int| j <= t < old_entries.len() implies old_entries[t].id.0 > state.id.0 by {
                    assert(old_entries[j as int].id.0 > state.id.0);
                    if t > j {
                        assert(old_entries[j as int].id.0 < old_entries[t].id.0);
                    }
                }
            }
            self.entries.insert(j, state);
            proof {
                let e = self.entries@;
                assert(e == old_entries.insert(j as int, state));
                assert forall|a: int, b: int| 0 <= a < b < e.len() implies e[a].id.0 < e[b].id.0 by {
                    if b < j {
                    } else if b == j {
                    } else if a < j {
                        assert(e[b] == old_entries[b - 1]);
                    } else if a == j {
                        assert(e[b] == old_entries[b - 1]);
                    } else {
                        assert(e[a] == old_entries[a - 1]);
                        assert(e[b] == old_entries[b - 1]);
                    }
                }
                assert forall|id: u32| #[trigger] has_id(e, id) == (id == state.id.0 || has_id(old_entries, id)) by {
                    if has_id(e, id) {
                        let i = index_of_id(e, id);
                        if i < j {
                            assert(old_entries[i].id.0 == id);
                        } else if i > j {
                            assert(old_entries[i - 1].id.0 == id);
                        }
                    }
                    if has_id(old_entries, id) {
                        let i = index_of_id(old_entries, id);
                        if i < j {
                            assert(e[i].id.0 == id);
                        } else {
                            assert(e[i + 1].id.0 == id);
                        }
                    }
                    if id == state.id.0 {
                        assert(e[j as int].id.0 == id);
                    }
                }
                assert forall|id: u32| has_id(e, id) implies #[trigger] entry_of(e, id) == if id == state.id.0 {
                    state
                } else {
                    entry_of(old_entries, id)
                } by {
                    let i = index_of_id(e, id);
                    lemma_entry_at(e, i);
                    if i < j {
                        lemma_entry_at(old_entries, i);
                        assert(e[i] == old_entries[i]);
                    } else if i > j {
                        lemma_entry_at(old_entries, i - 1);
                        assert(e[i] == old_entries[i - 1]);
                    }
                }
            }
        }
    }

    proof fn lemma_update_lookup(&self, old_entries: Seq<TowerState>, j: int, state: TowerState)
        requires
            ids_increasing(old_entries),
            0 <= j < old_entries.len(),
            old_entries[j].id == state.id,
            self.entries@ == old_entries.update(j, state),
            ids_increasing(self.entries@),
        ensures
            forall|id: u32| #[trigger] has_id(self.entries@, id) == (id == state.id.0 || has_id(old_entries, id)),
            forall|id: u32| has_id(self.entries@, id) ==> #[trigger] entry_of(self.entries@, id)
                == if id == state.id.0 {
                state
            } else {
                entry_of(old_entries, id)
            },
    {
        let e = self.entries@;
        assert forall|id: u32| #[trigger] has_id(e, id) == (id == state.id.0 || has_id(old_entries, id)) by {
            if has_id(e, id) {
                let i = index_of_id(e, id);
                if i != j {
                    assert(old_entries[i].id.0 == id);
                }
            }
            if has_id(old_entries, id) {
                let i = index_of_id(old_entries, id);
                assert(e[i].id.0 == id);
            }
            if id == state.id.0 {
                assert(e[j].id.0 == id);
            }
        }
        assert forall|id: u32| has_id(e, id) implies #[trigger] entry_of(e, id) == if id == state.id.0 {
            state
        } else {
            entry_of(old_entries, id)
        } by {
            let i = index_of_id(e, id);
            lemma_entry_at(e, i);
            if i != j {
                lemma_entry_at(old_entries, i);
            }
        }
    }

    /// Position of the tower with identifier `id`, if stored.
    pub fn position(&self, id: TowerId) -> (r: Option<usize>)
        requires
            self.well_formed(),
        ensures
            r is None <==> !has_id(self.entries@, id.0),
            r matches Some(i) ==> i < self.entries@.len() && self.entries@[i as int].id == id
                && index_of_id(self.entries@, id.0) == i,
    {
        let mut i: usize = 0;
        while i < self.entries.len()
            invariant
                i <= self.entries@.len(),
                ids_increasing(self.entries@),
                forall|t: int| 0 <= t < i ==> self.entries@[t].id.0 != id.0,
            decreases self.entries@.len() - i,
        {
            if self.entries[i].id.0 == id.0 {
                proof {
                    lemma_entry_at(self.entries@, i as int);
                }
                return Some(i);
            }
            i = i + 1;
        }
        None
    }

    /// Retrieves the tower stored under `id`, if present.
    pub fn get(&self, id: TowerId) -> (r: Option<TowerState>)
        requires
            self.well_formed(),
        ensures
            r is None <==> !has_id(self.entries@, id.0),
            r matches Some(s) ==> s == entry_of(self.entries@, id.0),
    {
        match self.position(id) {
            Some(i) => Some(self.entries[i]),
            None => None,
        }
    }

    /// Removes the tower stored under `id`, returning it.
    pub fn remove(&mut self, id: TowerId) -> (r: Option<TowerState>)
        requires
            old(self).well_formed(),
        ensures
            final(self).well_formed(),
            final(self).next_tower_id == old(self).next_tower_id,
            removal_of(old(self).entries@, id.0, r, final(self).entries@),
            r is None <==> !has_id(old(self).entries@, id.0),
            r is None ==> final(self).entries@ == old(self).entries@,
            r matches Some(s) ==> s == entry_of(old(self).entries@, id.0)
                && final(self).entries@ == old(self).entries@.remove(index_of_id(old(self).entries@, id.0)),
            forall|x: u32| #[trigger] has_id(final(self).entries@, x) == (x != id.0 && has_id(old(self).entries@, x)),
            forall|x: u32| has_id(final(self).entries@, x) ==> #[trigger] entry_of(final(self).entries@, x)
                == entry_of(old(self).entries@, x),
    {
        let ghost old_entries = self.entries@;
        match self.position(id) {
            Some(i) => {
                let s = self.entries.remove(i);
                proof {
                    let e = self.entries@;
                    assert forall|a: int, b: int| 0 <= a < b < e.len() implies e[a].id.0 < e[b].id.0 by {
                        let oa = if a < i { a } else { a + 1 };
                        let ob = if b < i { b } else { b + 1 };
                        assert(e[a] == old_entries[oa]);
                        assert(e[b] == old_entries[ob]);
                    }
                    assert forall|x: u32| #[trigger] has_id(e, x) == (x != id.0 && has_id(old_entries, x)) by {
                        if has_id(e, x) {
                            let k = index_of_id(e, x);
                            let ok = if k < i { k } else { k + 1 };
                            assert(old_entries[ok].id.0 == x);
                            assert(ok != i);
                        }
                        if x != id.0 && has_id(old_entries, x) {
                            let k = index_of_id(old_entries, x);
                            assert(k != i);
                            if k < i {
                                assert(e[k].id.0 == x);
                            } else {
                                assert(e[k - 1].id.0 == x);
                            }
                        }
                    }
                    assert forall|x: u32| has_id(e, x) implies #[trigger] entry_of(e, x) == entry_of(old_entries, x) by {
                        let k = index_of_id(e, x);
                        lemma_entry_at(e, k);
                        let ok = if k < i { k } else { k + 1 };
                        assert(e[k] == old_entries[ok]);
                        lemma_entry_at(old_entries, ok);
                    }
                }
                Some(s)
            },
            None => {
                proof {
                    assert forall|x: u32| #[trigger] has_id(self.entries@, x) == (x != id.0 && has_id(old_entries, x)) by {}
                }
                None
            },
        }
    }

    /// Sets the cooldown of the tower stored under `id`, if present.
    pub fn set_cooldown(&mut self, id: TowerId, cooldown: Duration)
        requires
            old(self).well_formed(),
        ensures
            final(self).well_formed(),
            final(self).next_tower_id == old(self).next_tower_id,
            final(self).entries@.len() == old(self).entries@.len(),
            forall|i: int| 0 <= i < final(self).entries@.len() ==> (#[trigger] final(self).entries@[i]) == if old(self).entries@[i].id == id {
                TowerState { cooldown_remaining: cooldown, ..old(self).entries@[i] }
            } else {
                old(self).entries@[i]
            },
    {
        let ghost old_entries = self.entries@;
        if let Some(i) = self.position(id) {
            let mut s = self.entries[i];
            s.cooldown_remaining = cooldown;
            self.entries.set(i, s);
            proof {
                assert forall|a: int, b: int| 0 <= a < b < self.entries@.len() implies self.entries@[a].id.0
                    < self.entries@[b].id.0 by {
                    assert(old_entries[a].id.0 < old_entries[b].id.0);
                }
                assert forall|t: int| 0 <= t < self.entries@.len() && t != i implies old_entries[t].id != id by {
                    assert(old_entries[t].id.0 != old_entries[i as int].id.0);
                }
            }
        }
    }

    /// Shortens every tower's cooldown by `dt` (stopping at zero).
    pub fn tick_cooldowns(&mut self, dt: Duration)
        requires
            old(self).well_formed(),
        ensures
            final(self).well_formed(),
            final(self).next_tower_id == old(self).next_tower_id,
            final(self).entries@.len() == old(self).entries@.len(),
            forall|i: int| 0 <= i < final(self).entries@.len() ==> {
                let o = old(self).entries@[i];
                let n = #[trigger] final(self).entries@[i];
                &&& n.id == o.id
                &&& n.kind == o.kind
                &&& n.region == o.region
                &&& n.cooldown_remaining.spec_nanos() == if o.cooldown_remaining.spec_nanos() >= dt.spec_nanos() {
                    o.cooldown_remaining.spec_nanos() - dt.spec_nanos()
                } else {
                    0
                }
            },
    {
        let ghost old_entries = self.entries@;
        let mut i: usize = 0;
        while i < self.entries.len()
            invariant
                i <= self.entries@.len(),
                self.entries@.len() == old_entries.len(),
                self.next_tower_id == old(self).next_tower_id,
                old_entries == old(self).entries@,
                forall|t: int| i <= t < old_entries.len() ==> self.entries@[t] == old_entries[t],
                forall|t: int| 0 <= t < i ==> {
                    let o = old_entries[t];
                    let n = #[trigger] self.entries@[t];
                    &&& n.id == o.id
                    &&& n.kind == o.kind
                    &&& n.region == o.region
                    &&& n.cooldown_remaining.spec_nanos() == if o.cooldown_remaining.spec_nanos() >= dt.spec_nanos() {
                        o.cooldown_remaining.spec_nanos() - dt.spec_nanos()
                    } else {
                        0
                    }
                },
            decreases self.entries@.len() - i,
        {
            let mut s = self.entries[i];
            s.cooldown_remaining = s.cooldown_remaining.saturating_sub(dt);
            self.entries.set(i, s);
            i = i + 1;
        }
        proof {
            assert forall|a: int, b: int| 0 <= a < b < self.entries@.len() implies self.entries@[a].id.0
                < self.entries@[b].id.0 by {
                assert(old_entries[a].id.0 < old_entries[b].id.0);
            }
        }
    }

    /// Reports whether the registry stores any towers.
    pub fn is_empty(&self) -> (b: bool)
        ensures
            b == (self.entries@.len() == 0),
    {
        self.entries.len() == 0
    }

    /// All towers in identifier order.
    pub fn iter(&self) -> (r: &[TowerState])
        ensures
            r@ == self.entries@,
    {
        self.entries.as_slice()
    }
}

/// Reports the footprint size associated with a tower kind.
pub fn footprint_for(kind: TowerKind) -> (r: CellRectSize)
    ensures
        r == (CellRectSize { width: 2, height: 2 }),
{
    match kind {
        TowerKind::Basic => CellRectSize { width: 2, height: 2 },
    }
}

/// Inserting a tower under a fresh identifier and then removing that
/// identifier hands the tower back and leaves the registry as it was.
pub proof fn lemma_insert_remove_round_trip(
    before: Seq<TowerState>,
    state: TowerState,
    inserted: Seq<TowerState>,
    removed: Option<TowerState>,
    after: Seq<TowerState>,
)
    requires
        ids_increasing(before),
        ids_increasing(inserted),
        !has_id(before, state.id.0),
        fresh_insertion(before, state, inserted),
        removal_of(inserted, state.id.0, removed, after),
    ensures
        removed == Some(state),
        after == before,
{
    let j = choose|j: int| 0 <= j <= before.len() && inserted == before.insert(j, state);
    assert(inserted[j] == state);
    lemma_entry_at(inserted, j);
    assert(inserted.remove(j) =~= before);
}

} // verus!
