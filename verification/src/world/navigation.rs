//! Navigation distances: for every cell, the length of a shortest walk to an exit.

use vstd::prelude::*;
use crate::core_types::geometry::CellCoord;
use crate::core_types::fields::{cell_offset, row_major};
use super::grid_math::{in_grid, lemma_row_major};

verus! {

/// Distance recorded for cells that cannot reach an exit (or lie too far away).
pub const UNREACHABLE: u16 = 0xffff;

/// The inputs of a distance computation: grid dimensions, the row-major mask of
/// blocked cells and the exit cells.
pub struct NavProblem {
    pub width: u32,
    pub height: u32,
    pub blocked: Seq<bool>,
    pub exits: Seq<CellCoord>,
}

/// The cell above `c` (requires `c.row > 0` to be meaningful).
pub open spec fn north_of(c: CellCoord) -> CellCoord {
    CellCoord { column: c.column, row: (c.row - 1) as u32 }
}

/// The cell below `c` (requires `c.row < u32::MAX` to be meaningful).
pub open spec fn south_of(c: CellCoord) -> CellCoord {
    CellCoord { column: c.column, row: (c.row + 1) as u32 }
}

/// The cell left of `c` (requires `c.column > 0` to be meaningful).
pub open spec fn west_of(c: CellCoord) -> CellCoord {
    CellCoord { column: (c.column - 1) as u32, row: c.row }
}

/// The cell right of `c` (requires `c.column < u32::MAX` to be meaningful).
pub open spec fn east_of(c: CellCoord) -> CellCoord {
    CellCoord { column: (c.column + 1) as u32, row: c.row }
}

impl NavProblem {
    /// A cell inside the grid that is not blocked.
    pub open spec fn open_cell(self, c: CellCoord) -> bool {
        in_grid(c, self.width as int, self.height as int) && !self.blocked[row_major(c, self.width as int)]
    }

    /// From `c` an exit can be reached in at most `n` steps between
    /// orthogonally adjacent open cells.
    pub open spec fn reaches(self, c: CellCoord, n: nat) -> bool
        decreases n,
    {
        if n == 0 {
            self.open_cell(c) && self.exits.contains(c)
        } else {
            ||| self.reaches(c, (n - 1) as nat)
            ||| self.open_cell(c) && (
                (c.row > 0 && self.reaches(north_of(c), (n - 1) as nat))
                || (c.row < u32::MAX && self.reaches(south_of(c), (n - 1) as nat))
                || (c.column > 0 && self.reaches(west_of(c), (n - 1) as nat))
                || (c.column < u32::MAX && self.reaches(east_of(c), (n - 1) as nat)))
        }
    }

    /// `v` is the navigation distance of `c`: the length of a shortest walk
    /// to an exit when it is below [`UNREACHABLE`], and otherwise no walk of
    /// at most `UNREACHABLE - 1` steps exists.
    pub open spec fn distance_correct(self, c: CellCoord, v: u16) -> bool {
        if v < 0xffff {
            self.reaches(c, v as nat) && (v == 0 || !self.reaches(c, (v - 1) as nat))
        } else {
            !self.reaches(c, 0xfffe)
        }
    }

    /// `d` holds, in row-major order, the navigation distance of every cell.
    pub open spec fn is_distance_field(self, d: Seq<u16>) -> bool {
        &&& d.len() == self.width * self.height
        &&& forall|c: CellCoord| #![trigger d[row_major(c, self.width as int)]]
            in_grid(c, self.width as int, self.height as int)
            ==> self.distance_correct(c, d[row_major(c, self.width as int)])
    }
}

/// A walk of at most `m` steps is also a walk of at most `n >= m` steps.
pub proof fn lemma_reaches_monotonic(p: NavProblem, c: CellCoord, m: nat, n: nat)
    requires
        p.reaches(c, m),
        m <= n,
    ensures
        p.reaches(c, n),
    decreases n - m,
{
    if m < n {
        lemma_reaches_monotonic(p, c, m, (n - 1) as nat);
    }
}

/// Only open cells reach an exit.
pub proof fn lemma_reaches_open(p: NavProblem, c: CellCoord, n: nat)
    requires
        p.reaches(c, n),
    ensures
        p.open_cell(c),
    decreases n,
{
    if n > 0 && p.reaches(c, (n - 1) as nat) {
        lemma_reaches_open(p, c, (n - 1) as nat);
    }
}

/// Distance recorded by the search for cells it has not reached.
pub open spec fn far() -> u64 {
    0xffff_ffff_ffff_ffff
}

spec fn at(d: Seq<u64>, w: u32, c: CellCoord) -> u64 {
    d[row_major(c, w as int)]
}

/// Every open orthogonal neighbour of `c` has been reached in `d`.
spec fn neighbors_settled(p: NavProblem, d: Seq<u64>, c: CellCoord) -> bool {
    &&& (c.row > 0 && p.open_cell(north_of(c))) ==> at(d, p.width, north_of(c)) != far()
    &&& (c.row < u32::MAX && p.open_cell(south_of(c))) ==> at(d, p.width, south_of(c)) != far()
    &&& (c.column > 0 && p.open_cell(west_of(c))) ==> at(d, p.width, west_of(c)) != far()
    &&& (c.column < u32::MAX && p.open_cell(east_of(c))) ==> at(d, p.width, east_of(c)) != far()
}

/// Invariants of the level-by-level search after settling all levels below `k`
/// and possibly some cells of level `top` (at most `k + 1`).
spec fn search_state(p: NavProblem, d: Seq<u64>, k: int, top: int) -> bool {
    &&& d.len() == p.width * p.height
    &&& forall|c: CellCoord| #![trigger at(d, p.width, c)]
        in_grid(c, p.width as int, p.height as int) ==> {
            let v = at(d, p.width, c);
            &&& (v == far() || v <= top)
            &&& (v != far() ==> p.reaches(c, v as nat) && (v == 0 || !p.reaches(c, (v - 1) as nat)))
            &&& (v == far() ==> !p.reaches(c, k as nat))
            &&& (v < k ==> neighbors_settled(p, d, c))
        }
}

/// Number of unreached entries.
spec fn count_far(s: Seq<u64>) -> nat
    decreases s.len(),
{
    if s.len() == 0 {
        0
    } else {
        count_far(s.drop_last()) + if s.last() == far() { 1nat } else { 0nat }
    }
}

proof fn lemma_count_far_update(s: Seq<u64>, i: int, v: u64)
    requires
        0 <= i < s.len(),
        s[i] == far(),
        v != far(),
    ensures
        count_far(s.update(i, v)) + 1 == count_far(s),
    decreases s.len(),
{
    let t = s.update(i, v);
    if i == s.len() - 1 {
        assert(t.drop_last() =~= s.drop_last());
    } else {
        assert(t.drop_last() =~= s.drop_last().update(i, v));
        lemma_count_far_update(s.drop_last(), i, v);
    }
}

proof fn lemma_count_far_all(s: Seq<u64>)
    requires
        forall|j: int| 0 <= j < s.len() ==> s[j] == far(),
    ensures
        count_far(s) == s.len(),
    decreases s.len(),
{
    if s.len() > 0 {
        lemma_count_far_all(s.drop_last());
    }
}

proof fn lemma_update_at(d: Seq<u64>, w: u32, h: u32, cell: CellCoord, v: u64)
    requires
        in_grid(cell, w as int, h as int),
        d.len() == w * h,
    ensures
        at(d.update(row_major(cell, w as int), v), w, cell) == v,
        forall|c: CellCoord| #![trigger at(d.update(row_major(cell, w as int), v), w, c)]
            in_grid(c, w as int, h as int) && c != cell
            ==> at(d.update(row_major(cell, w as int), v), w, c) == at(d, w, c),
{
    lemma_row_major(cell, cell, w as int, h as int);
    assert forall|c: CellCoord| in_grid(c, w as int, h as int) && c != cell
        implies #[trigger] at(d.update(row_major(cell, w as int), v), w, c) == at(d, w, c) by {
        lemma_row_major(c, cell, w as int, h as int);
    }
}

/// Records `level` as the distance of `cell` when it is open and still unreached.
fn visit(
    dist: &mut Vec<u64>,
    next: &mut Vec<CellCoord>,
    cell: CellCoord,
    level: u64,
    blocked: &Vec<bool>,
    width: u32,
    height: u32,
)
    requires
        old(dist)@.len() == width * height,
        blocked@.len() == width * height,
    ensures
        final(dist)@.len() == old(dist)@.len(),
        if in_grid(cell, width as int, height as int) && !blocked@[row_major(cell, width as int)]
            && old(dist)@[row_major(cell, width as int)] == far() {
            &&& final(dist)@ == old(dist)@.update(row_major(cell, width as int), level)
            &&& final(next)@ == old(next)@.push(cell)
        } else {
            &&& final(dist)@ == old(dist)@
            &&& final(next)@ == old(next)@
        },
{
    if cell.column < width && cell.row < height {
        let offset64 = cell_offset(cell, width, height);
        let blen: usize = blocked.len();
        assert(offset64 < blen);
        let offset = offset64 as usize;
        assert(offset == row_major(cell, width as int));
        if !blocked[offset] && dist[offset] == 0xffff_ffff_ffff_ffff {
            dist.set(offset, level);
            next.push(cell);
        }
    }
}

/// Once every cell of level `k` has its open neighbours settled, no cell left
/// unreached can reach an exit within `k + 1` steps.
proof fn lemma_level_complete(p: NavProblem, d: Seq<u64>, frontier: Seq<CellCoord>, k: int)
    requires
        0 <= k,
        search_state(p, d, k, k + 1),
        forall|c: CellCoord| in_grid(c, p.width as int, p.height as int) && #[trigger] at(d, p.width, c) == k
            ==> frontier.contains(c),
        forall|s: int| 0 <= s < frontier.len() ==> neighbors_settled(p, d, #[trigger] frontier[s]),
    ensures
        search_state(p, d, k + 1, k + 1),
{
    assert forall|c: CellCoord| in_grid(c, p.width as int, p.height as int) && #[trigger] at(d, p.width, c) <= k
        implies neighbors_settled(p, d, c) by {
        if at(d, p.width, c) == k {
            assert(frontier.contains(c));
            let q = choose|q: int| 0 <= q < frontier.len() && #[trigger] frontier[q] == c;
            assert(neighbors_settled(p, d, frontier[q]));
        }
    }
    assert forall|c: CellCoord| #![trigger at(d, p.width, c)]
        in_grid(c, p.width as int, p.height as int) && at(d, p.width, c) == far()
        implies !p.reaches(c, (k + 1) as nat) by {
        lemma_neighbor_reached(p, d, c, k, k);
    }
}

/// If an unreached open cell could reach an exit within `n + 1` steps, some
/// neighbour reaches it within `n` steps; that neighbour must itself be
/// unreached once every reached cell (of level at most `k`) is settled.
proof fn lemma_neighbor_reached(p: NavProblem, d: Seq<u64>, c: CellCoord, k: int, n: int)
    requires
        0 <= n,
        in_grid(c, p.width as int, p.height as int),
        at(d, p.width, c) == far(),
        !p.reaches(c, n as nat),
        search_state(p, d, n, k + 1),
        forall|x: CellCoord| in_grid(x, p.width as int, p.height as int) && #[trigger] at(d, p.width, x) <= k
            ==> neighbors_settled(p, d, x),
        forall|x: CellCoord| in_grid(x, p.width as int, p.height as int) && #[trigger] at(d, p.width, x) != far()
            ==> at(d, p.width, x) <= k || !p.reaches(x, n as nat),
    ensures
        !p.reaches(c, (n + 1) as nat),
{
    if !p.reaches(c, (n + 1) as nat) {
        return;
    }
    assert(p.open_cell(c));
    if c.row > 0 && p.reaches(north_of(c), n as nat) {
        let nb = north_of(c);
        lemma_reaches_open(p, nb, n as nat);
        assert(at(d, p.width, nb) != far());
        assert(neighbors_settled(p, d, nb));
        assert(south_of(nb) == c);
    } else if c.row < u32::MAX && p.reaches(south_of(c), n as nat) {
        let nb = south_of(c);
        lemma_reaches_open(p, nb, n as nat);
        assert(at(d, p.width, nb) != far());
        assert(neighbors_settled(p, d, nb));
        assert(north_of(nb) == c);
    } else if c.column > 0 && p.reaches(west_of(c), n as nat) {
        let nb = west_of(c);
        lemma_reaches_open(p, nb, n as nat);
        assert(at(d, p.width, nb) != far());
        assert(neighbors_settled(p, d, nb));
        assert(east_of(nb) == c);
    } else {
        let nb = east_of(c);
        assert(c.column < u32::MAX && p.reaches(nb, n as nat));
        lemma_reaches_open(p, nb, n as nat);
        assert(at(d, p.width, nb) != far());
        assert(neighbors_settled(p, d, nb));
        assert(west_of(nb) == c);
    }
}

/// When every reached cell is settled, unreached cells reach no exit at all.
proof fn lemma_closed_unreachable(p: NavProblem, d: Seq<u64>, k: int, c: CellCoord, n: nat)
    requires
        0 <= k,
        search_state(p, d, k, k),
        forall|x: CellCoord| in_grid(x, p.width as int, p.height as int) && #[trigger] at(d, p.width, x) != far()
            ==> neighbors_settled(p, d, x),
        in_grid(c, p.width as int, p.height as int),
        at(d, p.width, c) == far(),
    ensures
        !p.reaches(c, n),
    decreases n,
{
    if n <= k {
        if p.reaches(c, n) {
            lemma_reaches_monotonic(p, c, n, k as nat);
        }
    } else {
        lemma_closed_unreachable(p, d, k, c, (n - 1) as nat);
        if p.reaches(c, n) {
            assert(p.open_cell(c));
            if c.row > 0 && p.reaches(north_of(c), (n - 1) as nat) {
                let nb = north_of(c);
                lemma_reaches_open(p, nb, (n - 1) as nat);
                if at(d, p.width, nb) == far() {
                    lemma_closed_unreachable(p, d, k, nb, (n - 1) as nat);
                } else {
                    assert(neighbors_settled(p, d, nb));
                    assert(south_of(nb) == c);
                }
            } else if c.row < u32::MAX && p.reaches(south_of(c), (n - 1) as nat) {
                let nb = south_of(c);
                lemma_reaches_open(p, nb, (n - 1) as nat);
                if at(d, p.width, nb) == far() {
                    lemma_closed_unreachable(p, d, k, nb, (n - 1) as nat);
                } else {
                    assert(neighbors_settled(p, d, nb));
                    assert(north_of(nb) == c);
                }
            } else if c.column > 0 && p.reaches(west_of(c), (n - 1) as nat) {
                let nb = west_of(c);
                lemma_reaches_open(p, nb, (n - 1) as nat);
                if at(d, p.width, nb) == far() {
                    lemma_closed_unreachable(p, d, k, nb, (n - 1) as nat);
                } else {
                    assert(neighbors_settled(p, d, nb));
                    assert(east_of(nb) == c);
                }
            } else {
                let nb = east_of(c);
                assert(c.column < u32::MAX && p.reaches(nb, (n - 1) as nat));
                lemma_reaches_open(p, nb, (n - 1) as nat);
                if at(d, p.width, nb) == far() {
                    lemma_closed_unreachable(p, d, k, nb, (n - 1) as nat);
                } else {
                    assert(neighbors_settled(p, d, nb));
                    assert(west_of(nb) == c);
                }
            }
        }
    }
}

/// Marks `neighbor` (an orthogonal neighbour of the frontier cell `f`) with the
/// next level when it is open and unreached, keeping the search invariants.
fn visit_step(
    dist: &mut Vec<u64>,
    next: &mut Vec<CellCoord>,
    f: CellCoord,
    neighbor: CellCoord,
    level: u64,
    blocked: &Vec<bool>,
    width: u32,
    height: u32,
    Ghost(p): Ghost<NavProblem>,
    Ghost(remaining): Ghost<nat>,
)
    requires
        p == (NavProblem { width, height, blocked: blocked@, exits: p.exits }),
        blocked@.len() == width * height,
        level < 0xffff_ffff_ffff_fffe,
        search_state(p, old(dist)@, level as int, level + 1),
        remaining == count_far(old(dist)@),
        in_grid(f, width as int, height as int),
        at(old(dist)@, width, f) == level,
        forall|s: int| 0 <= s < old(next)@.len() ==> in_grid(#[trigger] old(next)@[s], width as int, height as int)
            && at(old(dist)@, width, old(next)@[s]) == level + 1,
        forall|c: CellCoord| in_grid(c, width as int, height as int) && #[trigger] at(old(dist)@, width, c) == level + 1
            ==> old(next)@.contains(c),
        (f.row > 0 && neighbor == north_of(f)) || (f.row < u32::MAX && neighbor == south_of(f))
            || (f.column > 0 && neighbor == west_of(f)) || (f.column < u32::MAX && neighbor == east_of(f)),
    ensures
        search_state(p, final(dist)@, level as int, level + 1),
        count_far(final(dist)@) + final(next)@.len() == remaining + old(next)@.len(),
        forall|c: CellCoord| in_grid(c, width as int, height as int) && at(old(dist)@, width, c) != far()
            ==> #[trigger] at(final(dist)@, width, c) == at(old(dist)@, width, c),
        p.open_cell(neighbor) ==> at(final(dist)@, width, neighbor) != far(),
        forall|s: int| 0 <= s < final(next)@.len() ==> in_grid(#[trigger] final(next)@[s], width as int, height as int)
            && at(final(dist)@, width, final(next)@[s]) == level + 1,
        forall|c: CellCoord| in_grid(c, width as int, height as int) && #[trigger] at(final(dist)@, width, c) == level + 1
            ==> final(next)@.contains(c),
{
    let ghost d0 = old(dist)@;
    let ghost n0 = old(next)@;
    let ghost k = level as int;
    visit(dist, next, neighbor, level + 1, blocked, width, height);
    proof {
        let changed = in_grid(neighbor, width as int, height as int)
            && !blocked@[row_major(neighbor, width as int)] && d0[row_major(neighbor, width as int)] == far();
        if changed {
            lemma_update_at(d0, width, height, neighbor, (level + 1) as u64);
            lemma_row_major(neighbor, neighbor, width as int, height as int);
            lemma_count_far_update(d0, row_major(neighbor, width as int), (level + 1) as u64);
            assert(p.reaches(f, level as nat));
            assert(p.open_cell(neighbor));
            assert(at(d0, width, neighbor) == far());
            assert(p.reaches(neighbor, (level + 1) as nat));
            assert(!p.reaches(neighbor, level as nat));
            assert forall|c: CellCoord| in_grid(c, width as int, height as int)
                implies #[trigger] at(dist@, width, c) == (if c == neighbor { (level + 1) as u64 } else { at(d0, width, c) }) by {}
            assert forall|c: CellCoord| in_grid(c, width as int, height as int) && at(d0, width, c) != far()
                implies #[trigger] at(dist@, width, c) != far() by {}
            assert forall|c: CellCoord| #![trigger at(dist@, width, c)]
                in_grid(c, width as int, height as int) implies {
                    let v = at(dist@, width, c);
                    &&& (v == far() || v <= k + 1)
                    &&& (v != far() ==> p.reaches(c, v as nat) && (v == 0 || !p.reaches(c, (v - 1) as nat)))
                    &&& (v == far() ==> !p.reaches(c, k as nat))
                    &&& (v < k ==> neighbors_settled(p, dist@, c))
                } by {
                if c != neighbor {
                    let v = at(d0, width, c);
                    if v < k {
                        assert(neighbors_settled(p, d0, c));
                        if c.row > 0 && p.open_cell(north_of(c)) {
                            assert(at(d0, width, north_of(c)) != far());
                        }
                        if c.row < u32::MAX && p.open_cell(south_of(c)) {
                            assert(at(d0, width, south_of(c)) != far());
                        }
                        if c.column > 0 && p.open_cell(west_of(c)) {
                            assert(at(d0, width, west_of(c)) != far());
                        }
                        if c.column < u32::MAX && p.open_cell(east_of(c)) {
                            assert(at(d0, width, east_of(c)) != far());
                        }
                    }
                }
            }
            assert forall|s: int| 0 <= s < next@.len() implies in_grid(#[trigger] next@[s], width as int, height as int)
                && at(dist@, width, next@[s]) == level + 1 by {
                if s < n0.len() {
                    assert(next@[s] == n0[s]);
                }
            }
            assert forall|c: CellCoord| in_grid(c, width as int, height as int) && #[trigger] at(dist@, width, c) == level + 1
                implies next@.contains(c) by {
                if c == neighbor {
                    assert(next@[next@.len() - 1] == c);
                } else {
                    assert(n0.contains(c));
                    let q = choose|q: int| 0 <= q < n0.len() && #[trigger] n0[q] == c;
                    assert(next@[q] == c);
                }
            }
        } else {
            if p.open_cell(neighbor) {
                assert(at(d0, width, neighbor) != far());
            }
        }
    }
}

/// Outcome of a level-by-level search from the exits.
spec fn search_result(p: NavProblem, d: Seq<u64>, limit: int) -> bool {
    &&& d.len() == p.width * p.height
    &&& forall|c: CellCoord| #![trigger at(d, p.width, c)]
        in_grid(c, p.width as int, p.height as int) ==> {
            let v = at(d, p.width, c);
            &&& (v != far() ==> v <= limit && p.reaches(c, v as nat) && (v == 0 || !p.reaches(c, (v - 1) as nat)))
            &&& (v == far() ==> forall|n: nat| n <= limit ==> !#[trigger] p.reaches(c, n))
        }
}

/// Breadth-first search from the exits through open cells, level by level,
/// stopping after level `limit` or when no cell is left to explore. Returns
/// each cell's walk length to the nearest exit, [`far`] when none was found.
fn search_from_exits(width: u32, height: u32, exits: &[CellCoord], blocked: &Vec<bool>, limit: u64) -> (r: Vec<u64>)
    requires
        blocked@.len() == width * height,
        width * height < 0xffff_ffff_ffff_fffe,
        limit < 0xffff_ffff_ffff_ffff,
    ensures
        search_result(NavProblem { width, height, blocked: blocked@, exits: exits@ }, r@, limit as int),
        limit >= width * height ==> forall|c: CellCoord, m: nat| #![trigger r@[row_major(c, width as int)], (NavProblem { width, height, blocked: blocked@, exits: exits@ }).reaches(c, m)]
            in_grid(c, width as int, height as int) && r@[row_major(c, width as int)] == far()
            ==> !(NavProblem { width, height, blocked: blocked@, exits: exits@ }).reaches(c, m),
{
    let ghost p = NavProblem { width, height, blocked: blocked@, exits: exits@ };
    let n = blocked.len();
    let mut dist: Vec<u64> = Vec::new();
    let mut i: usize = 0;
    while i < n
        invariant
            i <= n,
            n == blocked@.len(),
            dist@.len() == i,
            forall|j: int| 0 <= j < i ==> dist@[j] == far(),
        decreases n - i,
    {
        dist.push(0xffff_ffff_ffff_ffff);
        i = i + 1;
    }
    proof {
        lemma_count_far_all(dist@);
        assert forall|c: CellCoord| in_grid(c, width as int, height as int)
            implies #[trigger] at(dist@, width, c) == far() by {
            lemma_row_major(c, c, width as int, height as int);
        }
    }
    let ghost mut remaining: nat = n as nat;
    let mut frontier: Vec<CellCoord> = Vec::new();
    let mut e: usize = 0;
    while e < exits.len()
        invariant
            e <= exits@.len(),
            p == (NavProblem { width, height, blocked: blocked@, exits: exits@ }),
            dist@.len() == width * height,
            blocked@.len() == width * height,
            remaining == count_far(dist@),
            count_far(dist@) + frontier@.len() == width * height,
            forall|c: CellCoord| #![trigger at(dist@, width, c)]
                in_grid(c, width as int, height as int) ==> {
                    let v = at(dist@, width, c);
                    &&& (v == 0 || v == far())
                    &&& (v == 0 <==> p.open_cell(c) && exits@.take(e as int).contains(c))
                },
            forall|t: int| 0 <= t < frontier@.len() ==> in_grid(#[trigger] frontier@[t], width as int, height as int)
                && at(dist@, width, frontier@[t]) == 0,
            forall|c: CellCoord| in_grid(c, width as int, height as int) && #[trigger] at(dist@, width, c) == 0
                ==> frontier@.contains(c),
        decreases exits@.len() - e,
    {
        let cell = exits[e];
        let ghost before = dist@;
        let ghost before_frontier = frontier@;
        if cell.column < width && cell.row < height {
            proof { lemma_row_major(cell, cell, width as int, height as int); }
            let offset64 = cell_offset(cell, width, height);
            let blen: usize = blocked.len();
            assert(offset64 < blen);
            let offset = offset64 as usize;
            assert(offset == row_major(cell, width as int));
            if !blocked[offset] && dist[offset] != 0 {
                proof {
                    assert(at(before, width, cell) == 0 || at(before, width, cell) == far());
                    lemma_count_far_update(before, offset as int, 0);
                }
                dist.set(offset, 0);
                frontier.push(cell);
                proof {
                    remaining = (remaining - 1) as nat;
                }
            }
        }
        proof {
            assert(exits@.take(e + 1) =~= exits@.take(e as int).push(cell));
            let pushed = frontier@.len() > before_frontier.len();
            if pushed {
                lemma_update_at(before, width, height, cell, 0);
                assert(dist@ == before.update(row_major(cell, width as int), 0));
                assert(frontier@ == before_frontier.push(cell));
            } else {
                assert(dist@ == before);
                assert(frontier@ == before_frontier);
            }
            assert forall|c: CellCoord| in_grid(c, width as int, height as int) implies
                #[trigger] at(dist@, width, c) == (if pushed && c == cell { 0u64 } else { at(before, width, c) }) by {
            }
            assert forall|c: CellCoord| in_grid(c, width as int, height as int) implies {
                let v = #[trigger] at(dist@, width, c);
                &&& (v == 0 || v == far())
                &&& (v == 0 <==> p.open_cell(c) && exits@.take(e + 1).contains(c))
            } by {
                assert(at(dist@, width, c) == (if pushed && c == cell { 0u64 } else { at(before, width, c) }));
                assert(at(before, width, c) == 0 || at(before, width, c) == far());
                if c != cell {
                    assert(exits@.take(e + 1).contains(c) ==> exits@.take(e as int).contains(c)) by {
                        if exits@.take(e + 1).contains(c) {
                            let q = choose|q: int| 0 <= q < e + 1 && #[trigger] exits@.take(e + 1)[q] == c;
                            assert(exits@.take(e as int)[q] == c);
                        }
                    }
                    assert(exits@.take(e as int).contains(c) ==> exits@.take(e + 1).contains(c)) by {
                        if exits@.take(e as int).contains(c) {
                            let q = choose|q: int| 0 <= q < e && #[trigger] exits@.take(e as int)[q] == c;
                            assert(exits@.take(e + 1)[q] == c);
                        }
                    }
                } else {
                    assert(exits@.take(e + 1)[e as int] == c);
                    lemma_row_major(c, c, width as int, height as int);
                }
            }
            assert forall|t: int| 0 <= t < frontier@.len() implies in_grid(#[trigger] frontier@[t], width as int, height as int)
                && at(dist@, width, frontier@[t]) == 0 by {
                if t < before_frontier.len() {
                    assert(frontier@[t] == before_frontier[t]);
                    assert(at(dist@, width, frontier@[t]) == (if pushed && frontier@[t] == cell { 0u64 } else { at(before, width, frontier@[t]) }));
                }
            }
            assert forall|c: CellCoord| in_grid(c, width as int, height as int) && #[trigger] at(dist@, width, c) == 0
                implies frontier@.contains(c) by {
                assert(at(dist@, width, c) == (if pushed && c == cell { 0u64 } else { at(before, width, c) }));
                if pushed && c == cell {
                    assert(frontier@[frontier@.len() - 1] == c);
                } else {
                    assert(at(before, width, c) == 0);
                    assert(before_frontier.contains(c));
                    let q = choose|q: int| 0 <= q < before_frontier.len() && #[trigger] before_frontier[q] == c;
                    assert(frontier@[q] == c);
                }
            }
        }
        e = e + 1;
    }
    proof {
        assert(exits@.take(exits@.len() as int) =~= exits@);
    }
    let mut level: u64 = 0;
    while frontier.len() > 0 && level < limit
        invariant
            p == (NavProblem { width, height, blocked: blocked@, exits: exits@ }),
            blocked@.len() == width * height,
            width * height < 0xffff_ffff_ffff_fffe,
            limit < 0xffff_ffff_ffff_ffff,
            level <= limit,
            remaining == count_far(dist@),
            frontier@.len() > 0 ==> level + remaining + frontier@.len() <= width * height,
            search_state(p, dist@, level as int, level as int),
            forall|t: int| 0 <= t < frontier@.len() ==> in_grid(#[trigger] frontier@[t], width as int, height as int)
                && at(dist@, width, frontier@[t]) == level,
            forall|c: CellCoord| in_grid(c, width as int, height as int) && #[trigger] at(dist@, width, c) == level
                ==> frontier@.contains(c),
        decreases remaining, frontier@.len(),
    {
        let next_level: u64 = level + 1;
        let mut next: Vec<CellCoord> = Vec::new();
        let ghost start_remaining = remaining;
        let mut t: usize = 0;
        while t < frontier.len()
            invariant
                p == (NavProblem { width, height, blocked: blocked@, exits: exits@ }),
                blocked@.len() == width * height,
                level < limit,
                limit < 0xffff_ffff_ffff_ffff,
                next_level == level + 1,
                t <= frontier@.len(),
                remaining == count_far(dist@),
                remaining + next@.len() == start_remaining,
                search_state(p, dist@, level as int, next_level as int),
                forall|s: int| 0 <= s < frontier@.len() ==> in_grid(#[trigger] frontier@[s], width as int, height as int)
                    && at(dist@, width, frontier@[s]) == level,
                forall|c: CellCoord| in_grid(c, width as int, height as int) && #[trigger] at(dist@, width, c) == level
                    ==> frontier@.contains(c),
                forall|s: int| 0 <= s < t ==> neighbors_settled(p, dist@, #[trigger] frontier@[s]),
                forall|s: int| 0 <= s < next@.len() ==> in_grid(#[trigger] next@[s], width as int, height as int)
                    && at(dist@, width, next@[s]) == next_level,
                forall|c: CellCoord| in_grid(c, width as int, height as int) && #[trigger] at(dist@, width, c) == next_level
                    ==> next@.contains(c),
            decreases frontier@.len() - t,
        {
            let f = frontier[t];
            let ghost d_before = dist@;
            if f.row > 0 {
                visit_step(&mut dist, &mut next, f, CellCoord { column: f.column, row: f.row - 1 }, level, blocked, width, height, Ghost(p), Ghost(remaining));
                proof { remaining = count_far(dist@); }
            }
            if f.row < u32::MAX {
                visit_step(&mut dist, &mut next, f, CellCoord { column: f.column, row: f.row + 1 }, level, blocked, width, height, Ghost(p), Ghost(remaining));
                proof { remaining = count_far(dist@); }
            }
            if f.column > 0 {
                visit_step(&mut dist, &mut next, f, CellCoord { column: f.column - 1, row: f.row }, level, blocked, width, height, Ghost(p), Ghost(remaining));
                proof { remaining = count_far(dist@); }
            }
            if f.column < u32::MAX {
                visit_step(&mut dist, &mut next, f, CellCoord { column: f.column + 1, row: f.row }, level, blocked, width, height, Ghost(p), Ghost(remaining));
                proof { remaining = count_far(dist@); }
            }
            t = t + 1;
        }
        proof {
            lemma_level_complete(p, dist@, frontier@, level as int);
        }
        frontier = next;
        level = next_level;
    }
    proof {
        if frontier@.len() == 0 {
            assert forall|x: CellCoord| in_grid(x, width as int, height as int) && #[trigger] at(dist@, width, x) != far()
                implies neighbors_settled(p, dist@, x) by {
                assert(at(dist@, width, x) != level);
            }
        }
        assert forall|c: CellCoord| #![trigger at(dist@, width, c)]
            in_grid(c, width as int, height as int) implies {
                let v = at(dist@, width, c);
                &&& (v != far() ==> v <= limit && p.reaches(c, v as nat) && (v == 0 || !p.reaches(c, (v - 1) as nat)))
                &&& (v == far() ==> forall|m: nat| m <= limit ==> !#[trigger] p.reaches(c, m))
            } by {
            if at(dist@, width, c) == far() {
                assert forall|m: nat| m <= limit implies !#[trigger] p.reaches(c, m) by {
                    if frontier@.len() == 0 {
                        lemma_closed_unreachable(p, dist@, level as int, c, m);
                    } else {
                        if p.reaches(c, m) {
                            lemma_reaches_monotonic(p, c, m, level as nat);
                        }
                    }
                }
            }
        }
        if limit >= width * height {
            assert(frontier@.len() == 0);
            assert forall|c: CellCoord, m: nat| in_grid(c, width as int, height as int)
                && #[trigger] dist@[row_major(c, width as int)] == far()
                implies !#[trigger] p.reaches(c, m) by {
                assert(at(dist@, width, c) == dist@[row_major(c, width as int)]);
                lemma_closed_unreachable(p, dist@, level as int, c, m);
            }
        }
    }
    dist
}

/// Whether some exit can be reached from `c` at all.
pub open spec fn reaches_somehow(p: NavProblem, c: CellCoord) -> bool {
    exists|n: nat| p.reaches(c, n)
}

/// For every cell of the grid (row-major), whether an exit can be reached
/// from it through open cells.
pub fn reachable_cells(width: u32, height: u32, exits: &[CellCoord], blocked: &Vec<bool>) -> (r: Vec<bool>)
    requires
        blocked@.len() == width * height,
        width * height < 0xffff_ffff_ffff_fffe,
    ensures
        r@.len() == width * height,
        forall|c: CellCoord| #![trigger r@[row_major(c, width as int)]]
            in_grid(c, width as int, height as int) ==> r@[row_major(c, width as int)]
            == reaches_somehow(NavProblem { width, height, blocked: blocked@, exits: exits@ }, c),
{
    let ghost p = NavProblem { width, height, blocked: blocked@, exits: exits@ };
    let dist = search_from_exits(width, height, exits, blocked, 0xffff_ffff_ffff_fffe);
    let mut out: Vec<bool> = Vec::new();
    let mut i: usize = 0;
    while i < dist.len()
        invariant
            i <= dist@.len(),
            out@.len() == i,
            forall|j: int| 0 <= j < i ==> out@[j] == (dist@[j] != far()),
        decreases dist@.len() - i,
    {
        out.push(dist[i] != 0xffff_ffff_ffff_ffff);
        i = i + 1;
    }
    proof {
        assert forall|c: CellCoord| #![trigger out@[row_major(c, width as int)]]
            in_grid(c, width as int, height as int) implies out@[row_major(c, width as int)]
            == reaches_somehow(p, c) by {
            lemma_row_major(c, c, width as int, height as int);
            let v = at(dist@, width, c);
            if v != far() {
                assert(p.reaches(c, v as nat));
            } else {
                if reaches_somehow(p, c) {
                    let m = choose|m: nat| p.reaches(c, m);
                    assert(dist@[row_major(c, width as int)] == far());
                    assert(!p.reaches(c, m));
                }
            }
        }
    }
    out
}

/// Dense distance grid seeded from the maze exits.
#[derive(Clone, Debug)]
pub struct NavigationField {
    pub width: u32,
    pub height: u32,
    pub distances: Vec<u16>,
}

impl NavigationField {
    /// An empty field.
    pub fn new() -> (f: Self)
        ensures
            f.width == 0,
            f.height == 0,
            f.distances@.len() == 0,
    {
        Self { width: 0, height: 0, distances: Vec::new() }
    }

    /// Width of the navigation field in cells.
    pub fn width(&self) -> (r: u32)
        ensures
            r == self.width,
    {
        self.width
    }

    /// Height of the navigation field in cells.
    pub fn height(&self) -> (r: u32)
        ensures
            r == self.height,
    {
        self.height
    }

    /// Dense navigation distances stored in row-major order.
    pub fn cells(&self) -> (r: &[u16])
        ensures
            r@ == self.distances@,
    {
        self.distances.as_slice()
    }

    /// Distance captured for the provided cell, if it lies within the field.
    pub fn distance(&self, cell: CellCoord) -> (r: Option<u16>)
        ensures
            r == crate::core_types::fields::field_distance(self.width, self.height, self.distances@, cell),
    {
        if cell.column >= self.width || cell.row >= self.height {
            return None;
        }
        let offset = cell_offset(cell, self.width, self.height);
        if offset < self.distances.len() as u64 {
            Some(self.distances[offset as usize])
        } else {
            None
        }
    }

    /// Recomputes every cell's distance to the nearest exit, walking between
    /// orthogonally adjacent cells that are not blocked. Distances are capped:
    /// a cell whose shortest walk is longer than `UNREACHABLE - 1` steps, or
    /// which cannot reach an exit, records [`UNREACHABLE`].
    pub fn rebuild_with(&mut self, width: u32, height: u32, exits: &[CellCoord], blocked: &Vec<bool>)
        requires
            blocked@.len() == width * height,
            width * height < 0xffff_ffff_ffff_fffe,
        ensures
            final(self).width == width,
            final(self).height == height,
            (NavProblem { width, height, blocked: blocked@, exits: exits@ }).is_distance_field(
                final(self).distances@,
            ),
    {
        let ghost p = NavProblem { width, height, blocked: blocked@, exits: exits@ };
        let dist = search_from_exits(width, height, exits, blocked, 0xfffe);
        let mut out: Vec<u16> = Vec::new();
        let mut i: usize = 0;
        while i < dist.len()
            invariant
                i <= dist@.len(),
                out@.len() == i,
                forall|j: int| 0 <= j < i ==> out@[j] == (if dist@[j] == far() { 0xffffu16 } else { dist@[j] as u16 }),
            decreases dist@.len() - i,
        {
            let v = dist[i];
            out.push(if v == 0xffff_ffff_ffff_ffff { 0xffff } else { v as u16 });
            i = i + 1;
        }
        proof {
            assert forall|c: CellCoord| #![trigger out@[row_major(c, width as int)]]
                in_grid(c, width as int, height as int)
                implies p.distance_correct(c, out@[row_major(c, width as int)]) by {
                lemma_row_major(c, c, width as int, height as int);
                let v = at(dist@, width, c);
                if v == far() {
                    assert(!p.reaches(c, 0xfffe));
                } else {
                    assert(v <= 0xfffe);
                }
            }
        }
        self.width = width;
        self.height = height;
        self.distances = out;
    }
}

} // verus!
