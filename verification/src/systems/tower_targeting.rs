//! Deterministic tower targets computed from world snapshots.

use vstd::prelude::*;
use crate::core_types::geometry::CellPointHalf;
use crate::core_types::layout::TowerTarget;
use crate::core_types::values::{PlayMode, spec_range_in_cells};
use crate::core_types::views::{BugSnapshot, BugView, TowerSnapshot, TowerView};

verus! {

/// Centre of a tower snapshot's footprint in half-cell units.
pub open spec fn tower_center(t: TowerSnapshot) -> CellPointHalf {
    CellPointHalf {
        column_half: (t.region.origin.column * 2 + t.region.size.width) as i64,
        row_half: (t.region.origin.row * 2 + t.region.size.height) as i64,
    }
}

/// Centre of a bug snapshot's cell in half-cell units.
pub open spec fn bug_center(b: BugSnapshot) -> CellPointHalf {
    CellPointHalf { column_half: (b.cell.column * 2 + 1) as i64, row_half: (b.cell.row * 2 + 1) as i64 }
}

/// Squared half-cell distance from tower `t` to bug `b`.
pub open spec fn distance_sq(t: TowerSnapshot, b: BugSnapshot) -> int {
    let dx = bug_center(b).column_half - tower_center(t).column_half;
    let dy = bug_center(b).row_half - tower_center(t).row_half;
    dx * dx + dy * dy
}

/// Bug `b` lies within the range of tower `t` (measured centre to centre).
pub open spec fn in_range(t: TowerSnapshot, b: BugSnapshot, cells_per_tile: u32) -> bool {
    let radius_half = spec_range_in_cells(t.kind, cells_per_tile as int) * 2;
    distance_sq(t, b) <= radius_half * radius_half
}

/// Tower `t` prefers bug `a` over bug `b`: nearer, then smaller identifier,
/// then smaller column, then smaller row.
pub open spec fn prefers(t: TowerSnapshot, a: BugSnapshot, b: BugSnapshot) -> bool {
    let da = distance_sq(t, a);
    let db = distance_sq(t, b);
    ||| da < db
    ||| da == db && a.id.0 < b.id.0
    ||| da == db && a.id == b.id && a.cell.column < b.cell.column
    ||| da == db && a.id == b.id && a.cell.column == b.cell.column && a.cell.row < b.cell.row
}

/// `bugs[i]` is the target of tower `t`: in range, preferred over every
/// earlier bug in range, and no later bug in range is preferred over it.
pub open spec fn is_choice(t: TowerSnapshot, bugs: Seq<BugSnapshot>, cells_per_tile: u32, i: int) -> bool {
    &&& 0 <= i < bugs.len()
    &&& in_range(t, bugs[i], cells_per_tile)
    &&& forall|j: int| 0 <= j < i && in_range(t, #[trigger] bugs[j], cells_per_tile) ==> prefers(t, bugs[i], bugs[j])
    &&& forall|j: int| i < j < bugs.len() && in_range(t, #[trigger] bugs[j], cells_per_tile) ==> !prefers(t, bugs[j], bugs[i])
}

/// The target of tower `t` among `bugs`, if any bug is in range.
pub open spec fn choice(t: TowerSnapshot, bugs: Seq<BugSnapshot>, cells_per_tile: u32) -> Option<int> {
    if exists|i: int| is_choice(t, bugs, cells_per_tile, i) {
        Some(choose|i: int| is_choice(t, bugs, cells_per_tile, i))
    } else {
        None
    }
}

/// The assignments for the towers of `towers`, in order: towers with an
/// empty footprint or no bug in range get none.
pub open spec fn assignments(towers: Seq<TowerSnapshot>, bugs: Seq<BugSnapshot>, cells_per_tile: u32) -> Seq<TowerTarget>
    decreases towers.len(),
{
    if towers.len() == 0 {
        Seq::empty()
    } else {
        let rest = assignments(towers.drop_last(), bugs, cells_per_tile);
        let t = towers.last();
        if t.region.size.width == 0 || t.region.size.height == 0 {
            rest
        } else {
            match choice(t, bugs, cells_per_tile) {
                Some(i) => rest.push(
                    TowerTarget {
                        tower: t.id,
                        bug: bugs[i].id,
                        tower_center_half: tower_center(t),
                        bug_center_half: bug_center(bugs[i]),
                    },
                ),
                None => rest,
            }
        }
    }
}

/// At most one index satisfies [`is_choice`].
proof fn lemma_choice_unique(t: TowerSnapshot, bugs: Seq<BugSnapshot>, cells_per_tile: u32, i: int, k: int)
    requires
        is_choice(t, bugs, cells_per_tile, i),
        is_choice(t, bugs, cells_per_tile, k),
    ensures
        i == k,
{
    if i < k {
        assert(prefers(t, bugs[k], bugs[i]));
    } else if k < i {
        assert(prefers(t, bugs[i], bugs[k]));
    }
}

/// Every target a tower is given is a bug within the tower's range, and no
/// bug within range is preferred over it: the targets are the preferred
/// bugs in range, one per tower with a footprint.
pub proof fn lemma_targets_are_preferred_bugs_in_range(
    towers: Seq<TowerSnapshot>,
    bugs: Seq<BugSnapshot>,
    cells_per_tile: u32,
    i: int,
)
    requires
        0 <= i < assignments(towers, bugs, cells_per_tile).len(),
    ensures
        exists|p: int, q: int|
            #![trigger towers[p], bugs[q]]
            {
                &&& 0 <= p < towers.len()
                &&& 0 <= q < bugs.len()
                &&& towers[p].region.size.width > 0
                &&& towers[p].region.size.height > 0
                &&& assignments(towers, bugs, cells_per_tile)[i] == (TowerTarget {
                    tower: towers[p].id,
                    bug: bugs[q].id,
                    tower_center_half: tower_center(towers[p]),
                    bug_center_half: bug_center(bugs[q]),
                })
                &&& in_range(towers[p], bugs[q], cells_per_tile)
                &&& forall|j: int|
                    0 <= j < bugs.len() && in_range(towers[p], #[trigger] bugs[j], cells_per_tile) ==> !prefers(
                        towers[p],
                        bugs[j],
                        bugs[q],
                    )
            },
    decreases towers.len(),
{
    let all = assignments(towers, bugs, cells_per_tile);
    let short = towers.drop_last();
    let rest = assignments(short, bugs, cells_per_tile);
    if i < rest.len() {
        lemma_targets_are_preferred_bugs_in_range(short, bugs, cells_per_tile, i);
        let (p, q) = choose|p: int, q: int|
            #![trigger short[p], bugs[q]]
            {
                &&& 0 <= p < short.len()
                &&& 0 <= q < bugs.len()
                &&& short[p].region.size.width > 0
                &&& short[p].region.size.height > 0
                &&& rest[i] == (TowerTarget {
                    tower: short[p].id,
                    bug: bugs[q].id,
                    tower_center_half: tower_center(short[p]),
                    bug_center_half: bug_center(bugs[q]),
                })
                &&& in_range(short[p], bugs[q], cells_per_tile)
                &&& forall|j: int|
                    0 <= j < bugs.len() && in_range(short[p], #[trigger] bugs[j], cells_per_tile) ==> !prefers(
                        short[p],
                        bugs[j],
                        bugs[q],
                    )
            };
        assert(short[p] == towers[p]);
        assert(all[i] == rest[i]);
    } else {
        let p = towers.len() - 1;
        let t = towers.last();
        assert(towers[p] == t);
        let q = choose|k: int| is_choice(t, bugs, cells_per_tile, k);
        assert(all[i] == (TowerTarget {
            tower: t.id,
            bug: bugs[q].id,
            tower_center_half: tower_center(t),
            bug_center_half: bug_center(bugs[q]),
        }));
        assert forall|j: int|
            0 <= j < bugs.len() && in_range(t, #[trigger] bugs[j], cells_per_tile) implies !prefers(
            t,
            bugs[j],
            bugs[q],
        ) by {
            if j < q {
                assert(prefers(t, bugs[q], bugs[j]));
            }
        }
    }
}

/// Tower targeting system.
#[derive(Debug)]
pub struct TowerTargeting {}

impl TowerTargeting {
    /// Creates a new tower targeting system.
    pub fn new() -> (r: Self) {
        TowerTargeting {}
    }

    /// Computes tower targets for the provided snapshots, replacing the
    /// contents of `out`: outside attack mode nothing is targeted; otherwise
    /// every tower with a non-empty footprint aims at its preferred bug in
    /// range (see [`prefers`]), towers in view order.
    pub fn handle(
        &mut self,
        play_mode: PlayMode,
        towers: &TowerView,
        bugs: &BugView,
        cells_per_tile: u32,
        out: &mut Vec<TowerTarget>,
    )
        ensures
            final(out)@ == if play_mode == PlayMode::Attack {
                assignments(towers.snapshots@, bugs.snapshots@, cells_per_tile)
            } else {
                Seq::<TowerTarget>::empty()
            },
    {
        out.clear();
        if play_mode != PlayMode::Attack {
            return;
        }
        let tower_list = towers.iter();
        let bug_list = bugs.iter();
        let mut i: usize = 0;
        assert(tower_list@.take(0) =~= Seq::<TowerSnapshot>::empty());
        while i < tower_list.len()
            invariant
                i <= tower_list@.len(),
                tower_list@ == towers.snapshots@,
                bug_list@ == bugs.snapshots@,
                out@ == assignments(tower_list@.take(i as int), bug_list@, cells_per_tile),
            decreases tower_list@.len() - i,
        {
            let t = tower_list[i];
            proof {
                assert(tower_list@.take(i + 1).drop_last() =~= tower_list@.take(i as int));
                assert(tower_list@.take(i + 1).last() == t);
            }
            if t.region.size.width != 0 && t.region.size.height != 0 {
                let best = best_bug(&t, bug_list, cells_per_tile);
                match best {
                    Some(k) => {
                        let b = bug_list[k];
                        out.push(
                            TowerTarget {
                                tower: t.id,
                                bug: b.id,
                                tower_center_half: CellPointHalf::new(
                                    t.region.origin.column as i64 * 2 + t.region.size.width as i64,
                                    t.region.origin.row as i64 * 2 + t.region.size.height as i64,
                                ),
                                bug_center_half: CellPointHalf::new(
                                    b.cell.column as i64 * 2 + 1,
                                    b.cell.row as i64 * 2 + 1,
                                ),
                            },
                        );
                    },
                    None => {},
                }
            }
            i = i + 1;
        }
        assert(tower_list@.take(tower_list@.len() as int) =~= tower_list@);
    }
}

/// Squared half-cell distance from tower `t` to bug `b`, computed exactly.
fn distance_squared(t: &TowerSnapshot, b: &BugSnapshot) -> (d: i128)
    ensures
        d == distance_sq(*t, *b),
{
    let tc: i128 = t.region.origin.column as i128 * 2 + t.region.size.width as i128;
    let tr: i128 = t.region.origin.row as i128 * 2 + t.region.size.height as i128;
    let bc: i128 = b.cell.column as i128 * 2 + 1;
    let br: i128 = b.cell.row as i128 * 2 + 1;
    let dx: i128 = bc - tc;
    let dy: i128 = br - tr;
    proof {
        assert(dx * dx <= 0x1_0000_0000_0000_0000_0000) by (nonlinear_arith)
            requires
                -0x100_0000_0000 <= dx <= 0x100_0000_0000,
        ;
        assert(dy * dy <= 0x1_0000_0000_0000_0000_0000) by (nonlinear_arith)
            requires
                -0x100_0000_0000 <= dy <= 0x100_0000_0000,
        ;
        assert(dx * dx >= 0) by (nonlinear_arith);
        assert(dy * dy >= 0) by (nonlinear_arith);
    }
    dx * dx + dy * dy
}

/// Whether tower `t` prefers bug `a` over bug `b` (see [`prefers`]).
fn precedes(t: &TowerSnapshot, a: &BugSnapshot, da: i128, b: &BugSnapshot, db: i128) -> (r: bool)
    requires
        da == distance_sq(*t, *a),
        db == distance_sq(*t, *b),
    ensures
        r == prefers(*t, *a, *b),
{
    if da != db {
        return da < db;
    }
    if a.id.0 != b.id.0 {
        return a.id.0 < b.id.0;
    }
    if a.cell.column != b.cell.column {
        return a.cell.column < b.cell.column;
    }
    a.cell.row < b.cell.row
}

/// Index of the bug tower `t` targets among `bugs`, if any is in range.
fn best_bug(t: &TowerSnapshot, bugs: &[BugSnapshot], cells_per_tile: u32) -> (r: Option<usize>)
    ensures
        r matches Some(i) ==> choice(*t, bugs@, cells_per_tile) == Some(i as int),
        r is None ==> choice(*t, bugs@, cells_per_tile) is None,
{
    let radius_cells = t.kind.range_in_cells(cells_per_tile);
    let radius_half: i128 = radius_cells as i128 * 2;
    proof {
        assert(radius_half * radius_half <= 0x1_0000_0000_0000_0000_0000) by (nonlinear_arith)
            requires
                0 <= radius_half <= 0x100_0000_0000,
        ;
    }
    let max_distance: i128 = radius_half * radius_half;
    let mut best: Option<usize> = None;
    let mut best_distance: i128 = 0;
    let mut j: usize = 0;
    while j < bugs.len()
        invariant
            j <= bugs@.len(),
            max_distance == (spec_range_in_cells(t.kind, cells_per_tile as int) * 2) * (spec_range_in_cells(
                t.kind,
                cells_per_tile as int,
            ) * 2),
            best is None ==> forall|k: int| 0 <= k < j ==> !in_range(*t, #[trigger] bugs@[k], cells_per_tile),
            best matches Some(b) ==> {
                &&& b < j
                &&& best_distance == distance_sq(*t, bugs@[b as int])
                &&& in_range(*t, bugs@[b as int], cells_per_tile)
                &&& forall|k: int| 0 <= k < b && in_range(*t, #[trigger] bugs@[k], cells_per_tile) ==> prefers(
                    *t,
                    bugs@[b as int],
                    bugs@[k],
                )
                &&& forall|k: int| b < k < j && in_range(*t, #[trigger] bugs@[k], cells_per_tile) ==> !prefers(
                    *t,
                    bugs@[k],
                    bugs@[b as int],
                )
            },
        decreases bugs@.len() - j,
    {
        let candidate = &bugs[j];
        let d = distance_squared(t, candidate);
        if d <= max_distance {
            match best {
                None => {
                    best = Some(j);
                    best_distance = d;
                },
                Some(b) => {
                    if precedes(t, candidate, d, &bugs[b], best_distance) {
                        proof {
                            assert forall|k: int| 0 <= k < j && in_range(*t, #[trigger] bugs@[k], cells_per_tile)
                                implies prefers(*t, bugs@[j as int], bugs@[k]) by {
                                if k < b {
                                    lemma_prefers_transitive(*t, bugs@[j as int], bugs@[b as int], bugs@[k]);
                                } else if k > b {
                                    lemma_prefers_total(*t, bugs@[b as int], bugs@[k]);
                                    if prefers(*t, bugs@[b as int], bugs@[k]) {
                                        lemma_prefers_transitive(*t, bugs@[j as int], bugs@[b as int], bugs@[k]);
                                    }
                                }
                            }
                        }
                        best = Some(j);
                        best_distance = d;
                    }
                },
            }
        }
        j = j + 1;
    }
    proof {
        match best {
            Some(b) => {
                assert(is_choice(*t, bugs@, cells_per_tile, b as int));
                let c = choose|i: int| is_choice(*t, bugs@, cells_per_tile, i);
                lemma_choice_unique(*t, bugs@, cells_per_tile, b as int, c);
            },
            None => {
                assert forall|i: int| !is_choice(*t, bugs@, cells_per_tile, i) by {
                    if 0 <= i < bugs@.len() {
                        assert(!in_range(*t, bugs@[i], cells_per_tile));
                    }
                }
            },
        }
    }
    best
}

/// Preference is transitive.
proof fn lemma_prefers_transitive(t: TowerSnapshot, a: BugSnapshot, b: BugSnapshot, c: BugSnapshot)
    requires
        prefers(t, a, b),
        prefers(t, b, c),
    ensures
        prefers(t, a, c),
{
}

/// Of two bugs that differ in identifier or cell, one is preferred.
proof fn lemma_prefers_total(t: TowerSnapshot, a: BugSnapshot, b: BugSnapshot)
    ensures
        prefers(t, a, b) || prefers(t, b, a) || (distance_sq(t, a) == distance_sq(t, b) && a.id == b.id
            && a.cell == b.cell),
{
}

} // verus!
