//! Maze analytics: the shortest spawner-to-exit route along the navigation
//! gradient, and how well the towers cover it.

use vstd::prelude::*;
use crate::core_types::analytics::{AnalyticsLayoutSnapshot, TowerAnalyticsSnapshot, TowerAnalyticsView};
use crate::core_types::fields::NavigationFieldView;
use crate::core_types::geometry::{i128_max, sat_square, saturating_square, CellCoord};

verus! {

/// A tower's centre in half-cell units together with its squared range.
#[derive(Clone, Copy, Debug, PartialEq, Eq, Structural)]
pub struct TowerRangeCache {
    pub center_column: i64,
    pub center_row: i64,
    pub range_squared_half: i128,
}

/// Whether the tower occupies at least one cell.
pub open spec fn has_footprint(s: TowerAnalyticsSnapshot) -> bool {
    s.region.size.width > 0 && s.region.size.height > 0
}

/// The range cache of a tower: the centre of its region and the square of
/// its range, both in half-cell units.
pub open spec fn range_cache_of(s: TowerAnalyticsSnapshot) -> TowerRangeCache {
    TowerRangeCache {
        center_column: (2 * s.region.origin.column + s.region.size.width) as i64,
        center_row: (2 * s.region.origin.row + s.region.size.height) as i64,
        range_squared_half: (4 * s.range_cells * s.range_cells) as i128,
    }
}

/// Whether the half-cell point (`column`, `row`) lies within range of the
/// cached tower, squares and their sum saturating at `i128::MAX`.
pub open spec fn cache_reaches(c: TowerRangeCache, column: int, row: int) -> bool {
    let s = sat_square(column - c.center_column) + sat_square(row - c.center_row);
    (if s > i128_max() { i128_max() } else { s }) <= c.range_squared_half
}

/// Whether the centre of `cell` lies within range of the cached tower.
pub open spec fn cache_reaches_cell(c: TowerRangeCache, cell: CellCoord) -> bool {
    cache_reaches(c, 2 * cell.column + 1, 2 * cell.row + 1)
}

/// Index of the first cell of `path` within range of the cached tower.
pub open spec fn first_reaching(c: TowerRangeCache, path: Seq<CellCoord>) -> Option<int>
    decreases path.len(),
{
    if path.len() == 0 {
        None
    } else {
        match first_reaching(c, path.drop_last()) {
            Some(i) => Some(i),
            None => if cache_reaches_cell(c, path.last()) {
                Some(path.len() - 1)
            } else {
                None
            },
        }
    }
}

/// The first path index is the least index of a cell in range.
pub proof fn lemma_first_reaching(c: TowerRangeCache, path: Seq<CellCoord>)
    ensures
        first_reaching(c, path) is Some ==> {
            let i = first_reaching(c, path)->0;
            &&& 0 <= i < path.len()
            &&& cache_reaches_cell(c, path[i])
            &&& forall|j: int| 0 <= j < i ==> !cache_reaches_cell(c, #[trigger] path[j])
        },
        first_reaching(c, path) is None ==> forall|j: int|
            0 <= j < path.len() ==> !cache_reaches_cell(c, #[trigger] path[j]),
    decreases path.len(),
{
    if path.len() > 0 {
        lemma_first_reaching(c, path.drop_last());
        assert forall|j: int| 0 <= j < path.len() - 1 implies path.drop_last()[j] == path[j] by {}
    }
}

impl TowerRangeCache {
    /// Builds the range cache of a tower; a tower without footprint has none.
    pub fn from_snapshot(snapshot: &TowerAnalyticsSnapshot) -> (r: Option<Self>)
        ensures
            r == if has_footprint(*snapshot) { Some(range_cache_of(*snapshot)) } else { None::<Self> },
    {
        let size = snapshot.region.size;
        if size.width == 0 || size.height == 0 {
            return None;
        }
        let origin = snapshot.region.origin;
        let center_column = origin.column as i64 * 2 + size.width as i64;
        let center_row = origin.row as i64 * 2 + size.height as i64;
        let radius_half = snapshot.range_cells as i128 * 2;
        proof {
            assert(radius_half * radius_half == 4 * snapshot.range_cells * snapshot.range_cells)
                by (nonlinear_arith)
                requires
                    radius_half == snapshot.range_cells * 2,
            ;
            assert(radius_half * radius_half <= 0x2_0000_0000 * 0x2_0000_0000int) by (nonlinear_arith)
                requires
                    0 <= radius_half <= 0x2_0000_0000,
            ;
        }
        let range_squared_half = radius_half * radius_half;
        Some(TowerRangeCache { center_column, center_row, range_squared_half })
    }

    /// Whether the half-cell point (`cell_center_column`, `cell_center_row`)
    /// lies within range, with squares and sum saturating at `i128::MAX`.
    pub fn contains_cell(&self, cell_center_column: i64, cell_center_row: i64) -> (b: bool)
        ensures
            b == cache_reaches(*self, cell_center_column as int, cell_center_row as int),
    {
        let dx: i128 = cell_center_column as i128 - self.center_column as i128;
        let dy: i128 = cell_center_row as i128 - self.center_row as i128;
        let sx = saturating_square(dx);
        let sy = saturating_square(dy);
        let distance_sq: i128 = if sx > 0x7fff_ffff_ffff_ffff_ffff_ffff_ffff_ffff - sy {
            0x7fff_ffff_ffff_ffff_ffff_ffff_ffff_ffff
        } else {
            sx + sy
        };
        distance_sq <= self.range_squared_half
    }

    /// Index of the first path cell whose centre lies within range.
    pub fn first_path_index(&self, path: &[CellCoord]) -> (r: Option<usize>)
        ensures
            r is Some <==> first_reaching(*self, path@) is Some,
            r is Some ==> r->0 == first_reaching(*self, path@)->0,
    {
        let mut index: usize = 0;
        while index < path.len()
            invariant
                index <= path@.len(),
                first_reaching(*self, path@.take(index as int)) is None,
            decreases path@.len() - index,
        {
            let cell = path[index];
            proof {
                assert(path@.take(index + 1).drop_last() =~= path@.take(index as int));
            }
            let column = cell.column as i64 * 2 + 1;
            let row = cell.row as i64 * 2 + 1;
            if self.contains_cell(column, row) {
                proof {
                    lemma_first_reaching_prefix(*self, path@, index + 1);
                }
                return Some(index);
            }
            index = index + 1;
        }
        assert(path@.take(path@.len() as int) =~= path@);
        None
    }
}

/// A first index found in a prefix is the first index of the whole path.
proof fn lemma_first_reaching_prefix(c: TowerRangeCache, path: Seq<CellCoord>, n: int)
    requires
        0 <= n <= path.len(),
        first_reaching(c, path.take(n)) is Some,
    ensures
        first_reaching(c, path) == first_reaching(c, path.take(n)),
    decreases path.len() - n,
{
    if n < path.len() {
        assert(path.take(n + 1).drop_last() =~= path.take(n));
        lemma_first_reaching_prefix(c, path, n + 1);
    } else {
        assert(path.take(n) =~= path);
    }
}

/// Range caches of the towers that occupy at least one cell, in order.
pub open spec fn caches_of(towers: Seq<TowerAnalyticsSnapshot>) -> Seq<TowerRangeCache>
    decreases towers.len(),
{
    if towers.len() == 0 {
        Seq::empty()
    } else if has_footprint(towers.last()) {
        caches_of(towers.drop_last()).push(range_cache_of(towers.last()))
    } else {
        caches_of(towers.drop_last())
    }
}

proof fn lemma_caches_len(towers: Seq<TowerAnalyticsSnapshot>)
    ensures
        caches_of(towers).len() <= towers.len(),
    decreases towers.len(),
{
    if towers.len() > 0 {
        lemma_caches_len(towers.drop_last());
    }
}

/// Number of caches whose range covers the centre of `cell`.
pub open spec fn count_reaching(caches: Seq<TowerRangeCache>, cell: CellCoord) -> nat
    decreases caches.len(),
{
    if caches.len() == 0 {
        0
    } else {
        count_reaching(caches.drop_last(), cell) + if cache_reaches_cell(caches.last(), cell) {
            1nat
        } else {
            0nat
        }
    }
}

/// Sum over the path cells of the number of caches covering each.
pub open spec fn covered_total(path: Seq<CellCoord>, caches: Seq<TowerRangeCache>) -> nat
    decreases path.len(),
{
    if path.len() == 0 {
        0
    } else {
        covered_total(path.drop_last(), caches) + count_reaching(caches, path.last())
    }
}

/// Mean tower coverage of `path` in basis points: covered (cell, tower)
/// pairs times 10 000 over path length times tower count, rounded down;
/// zero when either is empty.
pub open spec fn coverage_mean_bps(path: Seq<CellCoord>, towers: Seq<TowerAnalyticsSnapshot>) -> int {
    if towers.len() == 0 || path.len() == 0 {
        0
    } else {
        ((10_000 * covered_total(path, caches_of(towers))) / (path.len() * towers.len())) as int
    }
}

proof fn lemma_count_reaching_bound(caches: Seq<TowerRangeCache>, cell: CellCoord)
    ensures
        count_reaching(caches, cell) <= caches.len(),
    decreases caches.len(),
{
    if caches.len() > 0 {
        lemma_count_reaching_bound(caches.drop_last(), cell);
    }
}

/// Builds the range caches of the towers with a footprint.
fn collect_caches(towers: &[TowerAnalyticsSnapshot]) -> (r: Vec<TowerRangeCache>)
    ensures
        r@ == caches_of(towers@),
{
    let mut cached: Vec<TowerRangeCache> = Vec::new();
    let mut i: usize = 0;
    assert(towers@.take(0) =~= Seq::<TowerAnalyticsSnapshot>::empty());
    while i < towers.len()
        invariant
            i <= towers@.len(),
            cached@ == caches_of(towers@.take(i as int)),
        decreases towers@.len() - i,
    {
        proof {
            assert(towers@.take(i + 1).drop_last() =~= towers@.take(i as int));
        }
        if let Some(cache) = TowerRangeCache::from_snapshot(&towers[i]) {
            cached.push(cache);
        }
        i = i + 1;
    }
    assert(towers@.take(towers@.len() as int) =~= towers@);
    cached
}

/// Number of caches covering the centre of `cell`.
fn count_covering(cached: &Vec<TowerRangeCache>, cell: CellCoord) -> (r: u32)
    requires
        cached@.len() <= u32::MAX,
    ensures
        r == count_reaching(cached@, cell),
{
    let column = cell.column as i64 * 2 + 1;
    let row = cell.row as i64 * 2 + 1;
    let mut count: u32 = 0;
    let mut k: usize = 0;
    assert(cached@.take(0) =~= Seq::<TowerRangeCache>::empty());
    while k < cached.len()
        invariant
            k <= cached@.len(),
            cached@.len() <= u32::MAX,
            column == 2 * cell.column + 1,
            row == 2 * cell.row + 1,
            count == count_reaching(cached@.take(k as int), cell),
            count <= k,
        decreases cached@.len() - k,
    {
        proof {
            assert(cached@.take(k + 1).drop_last() =~= cached@.take(k as int));
            assert(cached@.take(k + 1).last() == cached@[k as int]);
        }
        if cached[k].contains_cell(column, row) {
            count = count + 1;
        }
        k = k + 1;
    }
    assert(cached@.take(cached@.len() as int) =~= cached@);
    count
}

/// Computes the mean tower coverage along `path` in basis points (see
/// [`coverage_mean_bps`]). Towers without footprint cover nothing but still
/// count in the mean.
pub fn tower_coverage_mean_bps(path: &[CellCoord], towers: &TowerAnalyticsView) -> (r: u32)
    requires
        towers.snapshots@.len() <= u32::MAX,
    ensures
        r == coverage_mean_bps(path@, towers.snapshots@),
        r <= 10_000,
{
    let snapshots = towers.iter();
    let total_towers = snapshots.len();
    if total_towers == 0 || path.len() == 0 {
        return 0;
    }
    let cached = collect_caches(snapshots);
    proof {
        lemma_caches_len(snapshots@);
    }
    let ghost cs = cached@;
    let mut covered_sum: u128 = 0;
    let mut i: usize = 0;
    assert(path@.take(0) =~= Seq::<CellCoord>::empty());
    while i < path.len()
        invariant
            i <= path@.len(),
            cs == cached@,
            cs.len() <= total_towers,
            total_towers <= u32::MAX,
            covered_sum == covered_total(path@.take(i as int), cs),
            covered_sum <= i * cs.len(),
        decreases path@.len() - i,
    {
        proof {
            assert(path@.take(i + 1).drop_last() =~= path@.take(i as int));
        }
        let in_range = count_covering(&cached, path[i]);
        proof {
            lemma_count_reaching_bound(cs, path@[i as int]);
            assert((i + 1) * cs.len() == i * cs.len() + cs.len()) by (nonlinear_arith);
            assert(i * cs.len() <= 0xffff_ffff_ffff_ffff * 0xffff_ffffint) by (nonlinear_arith)
                requires
                    i <= 0xffff_ffff_ffff_ffff,
                    cs.len() <= 0xffff_ffff,
            ;
        }
        covered_sum = covered_sum + in_range as u128;
        i = i + 1;
    }
    assert(path@.take(path@.len() as int) =~= path@);
    proof {
        assert(path@.len() * total_towers <= 0xffff_ffff_ffff_ffff * 0xffff_ffffint) by (nonlinear_arith)
            requires
                path@.len() <= 0xffff_ffff_ffff_ffff,
                total_towers <= 0xffff_ffff,
        ;
    }
    let denominator: u128 = path.len() as u128 * total_towers as u128;
    proof {
        assert(covered_sum <= path@.len() * total_towers) by (nonlinear_arith)
            requires
                covered_sum <= path@.len() * cs.len(),
                cs.len() <= total_towers,
        ;
        assert(path@.len() * total_towers <= 0xffff_ffff_ffff_ffff * 0xffff_ffffint) by (nonlinear_arith)
            requires
                path@.len() <= 0xffff_ffff_ffff_ffff,
                total_towers <= 0xffff_ffff,
        ;
        assert(denominator > 0) by (nonlinear_arith)
            requires
                denominator == path@.len() * total_towers,
                path@.len() > 0,
                total_towers > 0,
        ;
        lemma_scaled_ratio(covered_sum as int, denominator as int);
        assert(covered_sum * 10_000 <= 0xffff_ffff_ffff_ffff * 0xffff_ffff * 10_000int) by (nonlinear_arith)
            requires
                covered_sum <= 0xffff_ffff_ffff_ffff * 0xffff_ffffint,
        ;
    }
    let numerator: u128 = covered_sum * 10_000;
    (numerator / denominator) as u32
}

/// A ratio of at most one, scaled by 10 000 and rounded down, is at most 10 000.
proof fn lemma_scaled_ratio(a: int, d: int)
    requires
        0 <= a <= d,
        d > 0,
    ensures
        (a * 10_000) / d <= 10_000,
        0 <= (a * 10_000) / d,
        a * 10_000 == 10_000 * a,
{
    vstd::arithmetic::div_mod::lemma_div_is_ordered(a * 10_000, d * 10_000, d);
    vstd::arithmetic::div_mod::lemma_div_multiples_vanish(10_000, d);
    assert(d * 10_000 == 10_000 * d) by (nonlinear_arith);
    assert(a * 10_000 <= d * 10_000) by (nonlinear_arith)
        requires
            a <= d,
    ;
    vstd::arithmetic::div_mod::lemma_div_pos_is_pos(a * 10_000, d);
}

/// Index of the first path cell within range of tower `s`; none for a tower
/// without footprint.
pub open spec fn tower_first_index(s: TowerAnalyticsSnapshot, path: Seq<CellCoord>) -> Option<int> {
    if has_footprint(s) {
        first_reaching(range_cache_of(s), path)
    } else {
        None
    }
}

/// Whether every tower reaches some cell of the path.
pub open spec fn all_towers_reach(path: Seq<CellCoord>, towers: Seq<TowerAnalyticsSnapshot>) -> bool {
    forall|i: int| 0 <= i < towers.len() ==> #[trigger] tower_first_index(towers[i], path) is Some
}

/// The largest first index over the towers that reach the path (zero if none).
pub open spec fn furthest_first_index(path: Seq<CellCoord>, towers: Seq<TowerAnalyticsSnapshot>) -> int
    decreases towers.len(),
{
    if towers.len() == 0 {
        0
    } else {
        let f = furthest_first_index(path, towers.drop_last());
        match tower_first_index(towers.last(), path) {
            Some(i) => if i > f { i } else { f },
            None => f,
        }
    }
}

/// Path progress, in basis points, at which every tower has had its first
/// chance to fire: zero for no towers or no path, 10 000 when some tower
/// never reaches the path, zero for a one-cell path, and otherwise the
/// furthest first index times 10 000 over the path's step count, rounded down.
pub open spec fn firing_completion_bps(path: Seq<CellCoord>, towers: Seq<TowerAnalyticsSnapshot>) -> int {
    if towers.len() == 0 || path.len() == 0 {
        0
    } else if !all_towers_reach(path, towers) {
        10_000
    } else if path.len() == 1 {
        0
    } else {
        (furthest_first_index(path, towers) * 10_000) / (path.len() - 1)
    }
}

proof fn lemma_furthest_bound(path: Seq<CellCoord>, towers: Seq<TowerAnalyticsSnapshot>)
    requires
        path.len() > 0,
    ensures
        0 <= furthest_first_index(path, towers) < path.len(),
    decreases towers.len(),
{
    if towers.len() > 0 {
        lemma_furthest_bound(path, towers.drop_last());
        if has_footprint(towers.last()) {
            lemma_first_reaching(range_cache_of(towers.last()), path);
        }
    }
}

/// The furthest first index is the largest first index among the towers
/// that reach the path: no reaching tower's first index exceeds it, and it is
/// the first index of some reaching tower (zero when none reaches). It thus
/// depends on the set of first indices alone, not on the towers' order.
pub proof fn lemma_furthest_is_maximum(path: Seq<CellCoord>, towers: Seq<TowerAnalyticsSnapshot>)
    ensures
        forall|k: int|
            0 <= k < towers.len() && (#[trigger] tower_first_index(towers[k], path)) is Some
                ==> tower_first_index(towers[k], path)->0 <= furthest_first_index(path, towers),
        (forall|k: int| 0 <= k < towers.len() ==> (#[trigger] tower_first_index(towers[k], path)) is None)
            ==> furthest_first_index(path, towers) == 0,
        furthest_first_index(path, towers) == 0 || exists|k: int|
            0 <= k < towers.len() && #[trigger] tower_first_index(towers[k], path) == Some(
                furthest_first_index(path, towers),
            ),
    decreases towers.len(),
{
    if towers.len() > 0 {
        let init = towers.drop_last();
        lemma_furthest_is_maximum(path, init);
        assert forall|k: int| 0 <= k < init.len() implies init[k] == towers[k] by {}
        let f = furthest_first_index(path, init);
        let n = towers.len() - 1;
        assert(towers.last() == towers[n]);
        if f != 0 && furthest_first_index(path, towers) == f {
            let k = choose|k: int| 0 <= k < init.len() && #[trigger] tower_first_index(init[k], path) == Some(f);
            assert(tower_first_index(towers[k], path) == Some(f));
        }
        assert forall|k: int|
            0 <= k < towers.len() && (#[trigger] tower_first_index(towers[k], path)) is Some implies
                tower_first_index(towers[k], path)->0 <= furthest_first_index(path, towers) by {
            if k < n {
                assert(tower_first_index(init[k], path) is Some);
            }
        }
        if forall|k: int| 0 <= k < towers.len() ==> (#[trigger] tower_first_index(towers[k], path)) is None {
            assert forall|k: int| 0 <= k < init.len() implies (#[trigger] tower_first_index(init[k], path)) is None by {
                assert(tower_first_index(towers[k], path) is None);
            }
            assert(tower_first_index(towers[n], path) is None);
        }
    }
}

/// Where every tower reaches the path, the completion is that of the tower
/// whose first index is largest.
pub proof fn lemma_completion_from_latest_tower(path: Seq<CellCoord>, towers: Seq<TowerAnalyticsSnapshot>)
    requires
        towers.len() > 0,
        path.len() > 1,
        all_towers_reach(path, towers),
    ensures
        exists|k: int|
            0 <= k < towers.len() && {
                let i = (#[trigger] tower_first_index(towers[k], path))->0;
                &&& firing_completion_bps(path, towers) == i * 10_000 / (path.len() - 1)
                &&& forall|j: int| 0 <= j < towers.len() ==> (#[trigger] tower_first_index(towers[j], path))->0 <= i
            },
{
    lemma_furthest_is_maximum(path, towers);
    let f = furthest_first_index(path, towers);
    let k = if f == 0 {
        0
    } else {
        choose|k: int| 0 <= k < towers.len() && #[trigger] tower_first_index(towers[k], path) == Some(f)
    };
    assert(tower_first_index(towers[k], path) is Some);
    lemma_first_reaching(range_cache_of(towers[k]), path);
    assert(tower_first_index(towers[k], path)->0 == f);
}

/// Returns the path progress in basis points at which every tower has had a
/// firing opportunity (see [`firing_completion_bps`]).
pub fn tower_firing_completion_percent_bps(path: &[CellCoord], towers: &TowerAnalyticsView) -> (r: u32)
    ensures
        r == firing_completion_bps(path@, towers.snapshots@),
        r <= 10_000,
        towers.snapshots@.len() > 0 && path@.len() > 1 && all_towers_reach(path@, towers.snapshots@) ==> exists|k: int|
            0 <= k < towers.snapshots@.len() && {
                let i = (#[trigger] tower_first_index(towers.snapshots@[k], path@))->0;
                &&& r == i * 10_000 / (path@.len() - 1)
                &&& forall|j: int|
                    0 <= j < towers.snapshots@.len() ==> (#[trigger] tower_first_index(towers.snapshots@[j], path@))->0
                        <= i
            },
{
    let snapshots = towers.iter();
    if snapshots.len() == 0 || path.len() == 0 {
        return 0;
    }
    let mut furthest_index: usize = 0;
    let mut unreachable_tower = false;
    let mut i: usize = 0;
    assert(snapshots@.take(0) =~= Seq::<TowerAnalyticsSnapshot>::empty());
    while i < snapshots.len()
        invariant
            i <= snapshots@.len(),
            path@.len() > 0,
            furthest_index == furthest_first_index(path@, snapshots@.take(i as int)),
            unreachable_tower == !all_towers_reach(path@, snapshots@.take(i as int)),
        decreases snapshots@.len() - i,
    {
        let ghost prefix = snapshots@.take(i as int);
        let ghost next = snapshots@.take(i + 1);
        proof {
            assert(next.drop_last() =~= prefix);
            assert(next.last() == snapshots@[i as int]);
            assert(forall|j: int| 0 <= j < i ==> #[trigger] next[j] == prefix[j]);
            lemma_furthest_bound(path@, prefix);
        }
        match TowerRangeCache::from_snapshot(&snapshots[i]) {
            None => {
                unreachable_tower = true;
                assert(tower_first_index(next[i as int], path@) is None);
            },
            Some(cache) => {
                match cache.first_path_index(path) {
                    Some(index) => {
                        if index > furthest_index {
                            furthest_index = index;
                        }
                    },
                    None => {
                        unreachable_tower = true;
                        assert(tower_first_index(next[i as int], path@) is None);
                    },
                }
            },
        }
        i = i + 1;
    }
    assert(snapshots@.take(snapshots@.len() as int) =~= snapshots@);
    if unreachable_tower {
        return 10_000;
    }
    let steps: usize = path.len() - 1;
    if steps == 0 {
        return 0;
    }
    proof {
        lemma_furthest_bound(path@, snapshots@);
        lemma_scaled_ratio(furthest_index as int, steps as int);
        assert(furthest_index * 10_000 <= 0xffff_ffff_ffff_ffff * 10_000int) by (nonlinear_arith)
            requires
                furthest_index <= 0xffff_ffff_ffff_ffff,
        ;
    }
    proof {
        lemma_completion_from_latest_tower(path@, snapshots@);
    }
    let numerator: u128 = furthest_index as u128 * 10_000;
    (numerator / steps as u128) as u32
}

/// The distance-best neighbour found so far and the distance it improves to.
pub open spec fn consider_neighbor(
    nav: NavigationFieldView,
    candidate: Option<CellCoord>,
    best: (u16, Option<CellCoord>),
) -> (u16, Option<CellCoord>) {
    match candidate {
        None => best,
        Some(n) => match nav.spec_distance(n) {
            None => best,
            Some(d) => if d < best.0 {
                (d, Some(n))
            } else {
                best
            },
        },
    }
}

/// The neighbour of `cell` above it, if any.
pub open spec fn north_of(cell: CellCoord) -> Option<CellCoord> {
    if cell.row > 0 {
        Some(CellCoord { column: cell.column, row: (cell.row - 1) as u32 })
    } else {
        None
    }
}

/// The neighbour of `cell` to its right inside a field `width` wide, if any.
pub open spec fn east_of(cell: CellCoord, width: u32) -> Option<CellCoord> {
    if cell.column + 1 < width {
        Some(CellCoord { column: (cell.column + 1) as u32, row: cell.row })
    } else {
        None
    }
}

/// The neighbour of `cell` below it inside a field `height` tall, if any.
pub open spec fn south_of(cell: CellCoord, height: u32) -> Option<CellCoord> {
    if cell.row + 1 < height {
        Some(CellCoord { column: cell.column, row: (cell.row + 1) as u32 })
    } else {
        None
    }
}

/// The neighbour of `cell` to its left, if any.
pub open spec fn west_of(cell: CellCoord) -> Option<CellCoord> {
    if cell.column > 0 {
        Some(CellCoord { column: (cell.column - 1) as u32, row: cell.row })
    } else {
        None
    }
}

/// The gradient step from `cell` at distance `d`: among the neighbours taken
/// north, east, south, west, the first with the smallest distance below `d`.
pub open spec fn gradient_next(nav: NavigationFieldView, cell: CellCoord, d: u16) -> (u16, Option<CellCoord>) {
    let b1 = consider_neighbor(nav, north_of(cell), (d, None));
    let b2 = consider_neighbor(nav, east_of(cell, nav.width), b1);
    let b3 = consider_neighbor(nav, south_of(cell, nav.height), b2);
    consider_neighbor(nav, west_of(cell), b3)
}

/// The route from `cell` at distance `d` that follows the gradient down to
/// distance zero; none when it stops at a cell with no lower neighbour.
pub open spec fn trace_from(nav: NavigationFieldView, cell: CellCoord, d: u16) -> Option<Seq<CellCoord>>
    decreases d,
{
    if d == 0 {
        Some(seq![cell])
    } else {
        let step = gradient_next(nav, cell, d);
        match step.1 {
            None => None,
            Some(n) => if step.0 < d {
                match trace_from(nav, n, step.0) {
                    Some(rest) => Some(seq![cell] + rest),
                    None => None,
                }
            } else {
                None
            },
        }
    }
}

/// The gradient route from `start`; none when `start` lies outside the field,
/// is unreachable (`u16::MAX`), or the descent gets stuck.
pub open spec fn traced_route(nav: NavigationFieldView, start: CellCoord) -> Option<Seq<CellCoord>> {
    match nav.spec_distance(start) {
        None => None,
        Some(d) => if d == u16::MAX {
            None
        } else {
            trace_from(nav, start, d)
        },
    }
}

/// `prefix` in front of the route `rest`, if there is one.
pub open spec fn prepend_route(prefix: Seq<CellCoord>, rest: Option<Seq<CellCoord>>) -> Option<Seq<CellCoord>> {
    match rest {
        Some(r) => Some(prefix + r),
        None => None,
    }
}

proof fn lemma_consider_keeps_bound(
    nav: NavigationFieldView,
    candidate: Option<CellCoord>,
    best: (u16, Option<CellCoord>),
    d: u16,
)
    requires
        best.1 is Some ==> best.0 < d,
        best.0 <= d,
    ensures
        consider_neighbor(nav, candidate, best).1 is Some ==> consider_neighbor(nav, candidate, best).0 < d,
        consider_neighbor(nav, candidate, best).0 <= d,
{
}

proof fn lemma_consider_keeps_distance(
    nav: NavigationFieldView,
    candidate: Option<CellCoord>,
    best: (u16, Option<CellCoord>),
)
    requires
        best.1 is Some ==> nav.spec_distance(best.1->0) == Some(best.0),
    ensures
        consider_neighbor(nav, candidate, best).1 is Some ==> nav.spec_distance(
            consider_neighbor(nav, candidate, best).1->0,
        ) == Some(consider_neighbor(nav, candidate, best).0),
{
}

/// A gradient route starts at its first cell, ends at distance zero, and
/// each cell lies strictly nearer the exit than the one before.
pub proof fn lemma_trace_descends(nav: NavigationFieldView, cell: CellCoord, d: u16)
    requires
        nav.spec_distance(cell) == Some(d),
    ensures
        trace_from(nav, cell, d) is Some ==> {
            let p = trace_from(nav, cell, d)->0;
            &&& p.len() >= 1
            &&& p[0] == cell
            &&& nav.spec_distance(p.last()) == Some(0u16)
            &&& forall|i: int|
                0 < i < p.len() ==> (#[trigger] nav.spec_distance(p[i])) is Some && (nav.spec_distance(
                    p[i],
                )->0 as int) < (nav.spec_distance(p[i - 1])->0 as int)
        },
    decreases d,
{
    if d > 0 {
        let b1 = consider_neighbor(nav, north_of(cell), (d, None));
        let b2 = consider_neighbor(nav, east_of(cell, nav.width), b1);
        let b3 = consider_neighbor(nav, south_of(cell, nav.height), b2);
        lemma_consider_keeps_distance(nav, north_of(cell), (d, None));
        lemma_consider_keeps_distance(nav, east_of(cell, nav.width), b1);
        lemma_consider_keeps_distance(nav, south_of(cell, nav.height), b2);
        lemma_consider_keeps_distance(nav, west_of(cell), b3);
        let step = gradient_next(nav, cell, d);
        if step.1 is Some && step.0 < d {
            let n = step.1->0;
            lemma_trace_descends(nav, n, step.0);
            if trace_from(nav, n, step.0) is Some {
                let rest = trace_from(nav, n, step.0)->0;
                let p = seq![cell] + rest;
                assert(trace_from(nav, cell, d)->0 == p);
                assert(p.last() == rest.last());
                assert forall|i: int| 0 < i < p.len() implies (#[trigger] nav.spec_distance(p[i])) is Some && (
                nav.spec_distance(p[i])->0 as int) < (nav.spec_distance(p[i - 1])->0 as int) by {
                    assert(p[i] == rest[i - 1]);
                    if i > 1 {
                        assert(p[i - 1] == rest[i - 2]);
                        assert(nav.spec_distance(rest[i - 1]) is Some);
                    } else {
                        assert(p[i - 1] == cell);
                        assert(rest[0] == n);
                    }
                }
            }
        }
    }
}

/// Weighs one neighbour candidate against the best found so far.
fn consider_exec(
    nav: &NavigationFieldView,
    candidate: Option<CellCoord>,
    best: (u16, Option<CellCoord>),
) -> (r: (u16, Option<CellCoord>))
    ensures
        r == consider_neighbor(*nav, candidate, best),
{
    match candidate {
        None => best,
        Some(n) => match nav.distance(n) {
            None => best,
            Some(d) => if d < best.0 {
                (d, Some(n))
            } else {
                best
            },
        },
    }
}

/// Computes the gradient step from `cell` at distance `d`.
fn gradient_step_exec(nav: &NavigationFieldView, cell: CellCoord, d: u16) -> (r: (u16, Option<CellCoord>))
    ensures
        r == gradient_next(*nav, cell, d),
        r.1 is Some ==> r.0 < d,
{
    let north = if cell.row > 0 { Some(CellCoord::new(cell.column, cell.row - 1)) } else { None };
    let east = if cell.column < u32::MAX && cell.column + 1 < nav.width {
        Some(CellCoord::new(cell.column + 1, cell.row))
    } else {
        None
    };
    let south = if cell.row < u32::MAX && cell.row + 1 < nav.height {
        Some(CellCoord::new(cell.column, cell.row + 1))
    } else {
        None
    };
    let west = if cell.column > 0 { Some(CellCoord::new(cell.column - 1, cell.row)) } else { None };
    let b1 = consider_exec(nav, north, (d, None));
    let b2 = consider_exec(nav, east, b1);
    let b3 = consider_exec(nav, south, b2);
    let b4 = consider_exec(nav, west, b3);
    proof {
        lemma_consider_keeps_bound(*nav, north, (d, None), d);
        lemma_consider_keeps_bound(*nav, east, b1, d);
        lemma_consider_keeps_bound(*nav, south, b2, d);
        lemma_consider_keeps_bound(*nav, west, b3, d);
    }
    b4
}

/// Follows the navigation gradient from `start` down to a cell at distance
/// zero, returning the visited cells (see [`traced_route`]).
pub fn trace_path(start: CellCoord, navigation: &NavigationFieldView) -> (r: Option<Vec<CellCoord>>)
    ensures
        r is Some <==> traced_route(*navigation, start) is Some,
        r is Some ==> traced_route(*navigation, start) == Some(r->0@),
{
    let first = navigation.distance(start);
    let start_distance = match first {
        None => return None,
        Some(d) => d,
    };
    if start_distance == u16::MAX {
        return None;
    }
    let mut out: Vec<CellCoord> = Vec::new();
    let mut current = start;
    let mut current_distance = start_distance;
    assert(Seq::<CellCoord>::empty() + seq![start] =~= seq![start]);
    assert(forall|p: Seq<CellCoord>| Seq::<CellCoord>::empty() + p =~= p);
    loop
        invariant
            traced_route(*navigation, start) == prepend_route(
                out@,
                trace_from(*navigation, current, current_distance),
            ),
        decreases current_distance,
    {
        out.push(current);
        if current_distance == 0 {
            return Some(out);
        }
        let step = gradient_step_exec(navigation, current, current_distance);
        match step.1 {
            None => return None,
            Some(next) => {
                proof {
                    let rest = trace_from(*navigation, next, step.0);
                    if rest is Some {
                        assert(out@.drop_last() + (seq![current] + rest->0) =~= out@ + rest->0);
                    }
                }
                current = next;
                current_distance = step.0;
            },
        }
    }
}

/// Among the gradient routes from `spawners`, the first shortest one.
pub open spec fn shortest_route(nav: NavigationFieldView, spawners: Seq<CellCoord>) -> Option<Seq<CellCoord>>
    decreases spawners.len(),
{
    if spawners.len() == 0 {
        None
    } else {
        let best = shortest_route(nav, spawners.drop_last());
        match traced_route(nav, spawners.last()) {
            None => best,
            Some(p) => match best {
                None => Some(p),
                Some(b) => if p.len() < b.len() {
                    Some(p)
                } else {
                    best
                },
            },
        }
    }
}

/// The route selected among the spawners is one of their routes, and no
/// spawner with a route has a shorter one.
pub proof fn lemma_shortest_route_is_shortest(nav: NavigationFieldView, spawners: Seq<CellCoord>)
    ensures
        shortest_route(nav, spawners) is Some ==> exists|k: int|
            0 <= k < spawners.len() && traced_route(nav, #[trigger] spawners[k]) == shortest_route(nav, spawners),
        forall|k: int|
            0 <= k < spawners.len() && (#[trigger] traced_route(nav, spawners[k])) is Some ==> {
                &&& shortest_route(nav, spawners) is Some
                &&& shortest_route(nav, spawners)->0.len() <= traced_route(nav, spawners[k])->0.len()
            },
    decreases spawners.len(),
{
    if spawners.len() > 0 {
        let short = spawners.drop_last();
        lemma_shortest_route_is_shortest(nav, short);
        assert forall|k: int| 0 <= k < short.len() implies short[k] == spawners[k] by {}
        if shortest_route(nav, spawners) is Some {
            if shortest_route(nav, spawners) == traced_route(nav, spawners.last()) {
                assert(spawners[spawners.len() - 1] == spawners.last());
            } else {
                let k = choose|k: int|
                    0 <= k < short.len() && traced_route(nav, #[trigger] short[k]) == shortest_route(nav, short);
                assert(spawners[k] == short[k]);
            }
        }
        assert forall|k: int|
            0 <= k < spawners.len() && (#[trigger] traced_route(nav, spawners[k])) is Some implies {
                &&& shortest_route(nav, spawners) is Some
                &&& shortest_route(nav, spawners)->0.len() <= traced_route(nav, spawners[k])->0.len()
            } by {
            if k < short.len() {
                assert(spawners[k] == short[k]);
            } else {
                assert(spawners[k] == spawners.last());
            }
        }
    }
}

/// Selects the canonical shortest route from the layout's spawners to the
/// exits by following the navigation gradient (see [`shortest_route`]).
pub fn select_shortest_navigation_path(
    navigation: &NavigationFieldView,
    layout: &AnalyticsLayoutSnapshot,
) -> (r: Option<Vec<CellCoord>>)
    ensures
        r is Some <==> shortest_route(*navigation, layout.spawners@) is Some,
        r is Some ==> shortest_route(*navigation, layout.spawners@) == Some(r->0@),
{
    let spawners = layout.spawners();
    let mut best: Option<Vec<CellCoord>> = None;
    let mut i: usize = 0;
    assert(spawners@.take(0) =~= Seq::<CellCoord>::empty());
    while i < spawners.len()
        invariant
            i <= spawners@.len(),
            spawners@ == layout.spawners@,
            best is Some <==> shortest_route(*navigation, spawners@.take(i as int)) is Some,
            best is Some ==> shortest_route(*navigation, spawners@.take(i as int)) == Some(best->0@),
        decreases spawners@.len() - i,
    {
        proof {
            assert(spawners@.take(i + 1).drop_last() =~= spawners@.take(i as int));
            assert(spawners@.take(i + 1).last() == spawners@[i as int]);
        }
        match trace_path(spawners[i], navigation) {
            None => {},
            Some(candidate) => {
                let replace = match &best {
                    None => true,
                    Some(current) => candidate.len() < current.len(),
                };
                if replace {
                    best = Some(candidate);
                }
            },
        }
        i = i + 1;
    }
    assert(spawners@.take(spawners@.len() as int) =~= spawners@);
    best
}

} // verus!
