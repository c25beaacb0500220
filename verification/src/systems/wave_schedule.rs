//! Scheduling a wave's planned spawns onto the bug spawners.
//!
//! Spawners are taken in row-then-column order. Each species (in ascending
//! id order) gets a band of consecutive spawners: the first band starts at a
//! drawn spawner, each next band where the previous one ended, wrapping
//! around; a band as long as the spawner list is the whole list in order.
//! A species' spawns take the cells of its band in turn. A spawn happens at
//! its planned time, or later when its spawner is still cooling down from
//! the previous spawn there (that spawn's time plus its step duration). The
//! schedule is ordered by time, then spawner row and column, then plan order.

use vstd::prelude::*;
use rand::{Rng, SeedableRng};
use rand_chacha::ChaCha8Rng;
use crate::core_types::geometry::CellCoord;

verus! {

/// A spawn of the wave's plan: species, planned time, health and the step
/// duration of the spawned bug.
#[derive(Clone, Copy, Debug, PartialEq, Eq, Structural)]
pub struct PlannedSpawn {
    pub species: u32,
    pub time_ms: u32,
    pub health: u32,
    pub step_ms: u32,
}

/// A spawn placed on a spawner at a time.
#[derive(Clone, Copy, Debug, PartialEq, Eq, Structural)]
pub struct ScheduledSpawn {
    pub at_ms: u64,
    pub spawner: CellCoord,
    pub species: u32,
    pub health: u32,
    pub step_ms: u32,
}

/// Fewest spawners a species' band spans (fewer when there are fewer spawners).
pub const MIN_SPAWN_BAND: usize = 5;
/// Most spawners a species' band spans.
pub const MAX_SPAWN_BAND: usize = 10;

/// The band lengths that may be drawn for `n` spawners: at least one, at
/// most `n`.
pub open spec fn band_bounds(n: int) -> (int, int) {
    let lo = if MIN_SPAWN_BAND < n { MIN_SPAWN_BAND as int } else { n };
    let hi = if MAX_SPAWN_BAND < n { MAX_SPAWN_BAND as int } else { n };
    (if lo < 1 { 1 } else { lo }, if hi < 1 { 1 } else { hi })
}

/// The draws of `rand_chacha`'s `ChaCha8Rng` seeded with `seed`: a start
/// below `spawner_count`, then `draws` lengths from `min_band` to `max_band`.
pub uninterp spec fn chacha_band_draws(
    seed: u64,
    spawner_count: u64,
    draws: u64,
    min_band: u64,
    max_band: u64,
) -> (u64, Seq<u64>);

/// Seeds `rand_chacha`'s `ChaCha8Rng` with `seed` (`SeedableRng::seed_from_u64`),
/// draws a start with `Rng::gen_range(0..spawner_count)`, then `draws`
/// lengths with `gen_range(min_band..=max_band)`. The contract names the
/// draws (the generator is deterministic, so they depend on the arguments
/// alone) and states that each lies in its range, as `gen_range` documents;
/// the ranges are kept non-empty, where `gen_range` panics.
#[verifier::external_body]
fn draw_spawn_bands(seed: u64, spawner_count: u64, draws: u64, min_band: u64, max_band: u64) -> (r: (u64, Vec<u64>))
    requires
        spawner_count > 0,
        min_band <= max_band,
    ensures
        (r.0, r.1@) == chacha_band_draws(seed, spawner_count, draws, min_band, max_band),
        r.0 < spawner_count,
        r.1@.len() == draws,
        forall|k: int| 0 <= k < r.1@.len() ==> min_band <= #[trigger] r.1@[k] <= max_band,
{
    let mut rng = ChaCha8Rng::seed_from_u64(seed);
    let start = rng.gen_range(0..spawner_count);
    let mut lengths = Vec::new();
    for _ in 0..draws {
        lengths.push(rng.gen_range(min_band..=max_band));
    }
    (start, lengths)
}

/// `a` comes no later than `b` in row-then-column order.
pub open spec fn cell_le(a: CellCoord, b: CellCoord) -> bool {
    a.row < b.row || (a.row == b.row && a.column <= b.column)
}

/// `c` placed after the last cell of `s` that does not come after it.
pub open spec fn insert_cell(s: Seq<CellCoord>, c: CellCoord) -> Seq<CellCoord>
    decreases s.len(),
{
    if s.len() == 0 {
        seq![c]
    } else if cell_le(s.last(), c) {
        s.push(c)
    } else {
        insert_cell(s.drop_last(), c).push(s.last())
    }
}

/// The spawners `s` in row-then-column order, equal cells in given order.
pub open spec fn ordered_spawners(s: Seq<CellCoord>) -> Seq<CellCoord>
    decreases s.len(),
{
    if s.len() == 0 {
        s
    } else {
        insert_cell(ordered_spawners(s.drop_last()), s.last())
    }
}

/// `x` added to the ascending ids `s` unless present.
pub open spec fn insert_species(s: Seq<u32>, x: u32) -> Seq<u32>
    decreases s.len(),
{
    if s.len() == 0 {
        seq![x]
    } else if s.last() < x {
        s.push(x)
    } else if s.last() == x {
        s
    } else {
        insert_species(s.drop_last(), x).push(s.last())
    }
}

/// The distinct species of `spawns`, ascending.
pub open spec fn species_of(spawns: Seq<PlannedSpawn>) -> Seq<u32>
    decreases spawns.len(),
{
    if spawns.len() == 0 {
        Seq::empty()
    } else {
        insert_species(species_of(spawns.drop_last()), spawns.last().species)
    }
}

/// Position of the first `x` in `ids`.
pub open spec fn rank_of(ids: Seq<u32>, x: u32) -> int
    decreases ids.len(),
{
    if ids.len() == 0 || ids[0] == x {
        0
    } else {
        1 + rank_of(ids.drop_first(), x)
    }
}

/// Where band `k` starts among `n` spawners: the first at `start`, each
/// next one where the previous ended, wrapping around.
pub open spec fn band_start_of(start: int, lens: Seq<usize>, k: int, n: int) -> int
    decreases k,
{
    if k <= 0 {
        start
    } else {
        (band_start_of(start, lens, k - 1, n) + lens[k - 1]) % n
    }
}

/// Cell `o` of the band of length `len` that starts at `start` in `cells`.
pub open spec fn band_cell(cells: Seq<CellCoord>, start: int, len: int, o: int) -> CellCoord {
    if len == cells.len() {
        cells[o]
    } else {
        cells[(start + o) % (cells.len() as int)]
    }
}

/// How many of the first `i` spawns are of `species`.
pub open spec fn uses_before(spawns: Seq<PlannedSpawn>, i: int, species: u32) -> int
    decreases i,
{
    if i <= 0 {
        0
    } else {
        uses_before(spawns, i - 1, species) + if spawns[i - 1].species == species { 1int } else { 0int }
    }
}

/// The spawner of spawn `i`: the next cell, in turn, of its species' band.
pub open spec fn spawn_cell(
    spawns: Seq<PlannedSpawn>,
    cells: Seq<CellCoord>,
    start: int,
    lens: Seq<usize>,
    i: int,
) -> CellCoord {
    let k = rank_of(species_of(spawns), spawns[i].species);
    let len = lens[k] as int;
    band_cell(
        cells,
        band_start_of(start, lens, k, cells.len() as int),
        len,
        uses_before(spawns, i, spawns[i].species) % len,
    )
}

/// `a + b`, clamped at `u64::MAX`.
pub open spec fn sat_add_u64(a: u64, b: u64) -> u64 {
    if a + b > u64::MAX { u64::MAX } else { (a + b) as u64 }
}

/// When `cell` is free again after the first `i` spawns (placed on
/// `spawn_cells` at `times`): the last of them there, plus its step.
pub open spec fn ready_time(
    spawns: Seq<PlannedSpawn>,
    spawn_cells: Seq<CellCoord>,
    times: Seq<u64>,
    i: int,
    cell: CellCoord,
) -> u64
    decreases i,
{
    if i <= 0 {
        0
    } else if spawn_cells[i - 1] == cell {
        sat_add_u64(times[i - 1], spawns[i - 1].step_ms as u64)
    } else {
        ready_time(spawns, spawn_cells, times, i - 1, cell)
    }
}

/// The times of the first `n` spawns: each at its planned time, or when its
/// spawner is free again if that is later.
pub open spec fn spawn_times(spawns: Seq<PlannedSpawn>, spawn_cells: Seq<CellCoord>, n: nat) -> Seq<u64>
    decreases n,
{
    if n == 0 {
        Seq::empty()
    } else {
        let t = spawn_times(spawns, spawn_cells, (n - 1) as nat);
        let ready = ready_time(spawns, spawn_cells, t, n - 1, spawn_cells[n - 1]);
        let planned = spawns[n - 1].time_ms as u64;
        t.push(if planned >= ready { planned } else { ready })
    }
}

/// `a` comes no later than `b` in the schedule: by time, then spawner.
pub open spec fn entry_le(a: ScheduledSpawn, b: ScheduledSpawn) -> bool {
    a.at_ms < b.at_ms || (a.at_ms == b.at_ms && cell_le(a.spawner, b.spawner))
}

/// `e` placed after the last entry of `s` that does not come after it.
pub open spec fn insert_entry(s: Seq<ScheduledSpawn>, e: ScheduledSpawn) -> Seq<ScheduledSpawn>
    decreases s.len(),
{
    if s.len() == 0 {
        seq![e]
    } else if entry_le(s.last(), e) {
        s.push(e)
    } else {
        insert_entry(s.drop_last(), e).push(s.last())
    }
}

/// The entries `s` by time, then spawner, then their order in `s`.
pub open spec fn ordered_entries(s: Seq<ScheduledSpawn>) -> Seq<ScheduledSpawn>
    decreases s.len(),
{
    if s.len() == 0 {
        s
    } else {
        insert_entry(ordered_entries(s.drop_last()), s.last())
    }
}

/// The wave's schedule; empty when there is no spawn or no spawner.
pub open spec fn wave_schedule(
    spawns: Seq<PlannedSpawn>,
    spawners: Seq<CellCoord>,
    start: int,
    lens: Seq<usize>,
) -> Seq<ScheduledSpawn> {
    if spawns.len() == 0 || spawners.len() == 0 {
        Seq::empty()
    } else {
        let cells = ordered_spawners(spawners);
        let spawn_cells = Seq::new(spawns.len(), |i: int| spawn_cell(spawns, cells, start, lens, i));
        let times = spawn_times(spawns, spawn_cells, spawns.len());
        ordered_entries(
            Seq::new(
                spawns.len(),
                |i: int|
                    ScheduledSpawn {
                        at_ms: times[i],
                        spawner: spawn_cells[i],
                        species: spawns[i].species,
                        health: spawns[i].health,
                        step_ms: spawns[i].step_ms,
                    },
            ),
        )
    }
}

/// Inserting at the position found by scanning back over later cells is [`insert_cell`].
proof fn lemma_insert_cell_at(s: Seq<CellCoord>, c: CellCoord, p: int)
    requires
        0 <= p <= s.len(),
        forall|k: int| p <= k < s.len() ==> !cell_le(#[trigger] s[k], c),
        p > 0 ==> cell_le(s[p - 1], c),
    ensures
        insert_cell(s, c) == s.insert(p, c),
    decreases s.len(),
{
    if s.len() == 0 {
        assert(s.insert(p, c) =~= seq![c]);
    } else if p == s.len() {
        assert(s.insert(p, c) =~= s.push(c));
    } else {
        let d = s.drop_last();
        assert(s.last() == s[s.len() - 1]);
        assert forall|k: int| p <= k < d.len() implies !cell_le(#[trigger] d[k], c) by {
            assert(d[k] == s[k]);
        }
        if p > 0 {
            assert(d[p - 1] == s[p - 1]);
        }
        lemma_insert_cell_at(d, c, p);
        assert(d.insert(p, c).push(s.last()) =~= s.insert(p, c));
    }
}

/// Ordering keeps the number of spawners.
proof fn lemma_ordered_spawners_len(s: Seq<CellCoord>)
    ensures
        ordered_spawners(s).len() == s.len(),
    decreases s.len(),
{
    if s.len() > 0 {
        lemma_ordered_spawners_len(s.drop_last());
        lemma_insert_cell_len(ordered_spawners(s.drop_last()), s.last());
    }
}

/// Inserting a cell adds one.
proof fn lemma_insert_cell_len(s: Seq<CellCoord>, c: CellCoord)
    ensures
        insert_cell(s, c).len() == s.len() + 1,
    decreases s.len(),
{
    if s.len() > 0 && !cell_le(s.last(), c) {
        lemma_insert_cell_len(s.drop_last(), c);
    }
}

/// The spawners in row-then-column order (see [`ordered_spawners`]).
pub fn order_spawners(spawners: &[CellCoord]) -> (r: Vec<CellCoord>)
    ensures
        r@ == ordered_spawners(spawners@),
        r@.len() == spawners@.len(),
{
    let mut out: Vec<CellCoord> = Vec::new();
    let mut i: usize = 0;
    while i < spawners.len()
        invariant
            i <= spawners@.len(),
            out@ == ordered_spawners(spawners@.take(i as int)),
        decreases spawners@.len() - i,
    {
        let c = spawners[i];
        let mut p: usize = out.len();
        while p > 0 && !(out[p - 1].row < c.row || (out[p - 1].row == c.row && out[p - 1].column <= c.column))
            invariant
                p <= out@.len(),
                forall|k: int| p <= k < out@.len() ==> !cell_le(#[trigger] out@[k], c),
            decreases p,
        {
            p = p - 1;
        }
        proof {
            lemma_insert_cell_at(out@, c, p as int);
            let t = spawners@.take(i + 1);
            assert(t.drop_last() =~= spawners@.take(i as int));
            assert(t.last() == c);
        }
        out.insert(p, c);
        i = i + 1;
    }
    assert(spawners@.take(spawners@.len() as int) =~= spawners@);
    proof {
        lemma_ordered_spawners_len(spawners@);
    }
    out
}

/// Inserting at the position found by scanning back over larger ids is [`insert_species`].
proof fn lemma_insert_species_at(s: Seq<u32>, x: u32, p: int)
    requires
        0 <= p <= s.len(),
        forall|k: int| p <= k < s.len() ==> #[trigger] s[k] > x,
        p > 0 ==> s[p - 1] <= x,
    ensures
        insert_species(s, x) == if p > 0 && s[p - 1] == x { s } else { s.insert(p, x) },
    decreases s.len(),
{
    if s.len() == 0 {
        assert(s.insert(p, x) =~= seq![x]);
    } else if p == s.len() {
        assert(s.last() == s[p - 1]);
        assert(s.insert(p, x) =~= s.push(x));
    } else {
        let d = s.drop_last();
        assert(s.last() == s[s.len() - 1]);
        assert forall|k: int| p <= k < d.len() implies #[trigger] d[k] > x by {
            assert(d[k] == s[k]);
        }
        if p > 0 {
            assert(d[p - 1] == s[p - 1]);
        }
        lemma_insert_species_at(d, x, p);
        assert(d.insert(p, x).push(s.last()) =~= s.insert(p, x));
        assert(d.push(s.last()) =~= s);
    }
}

/// Inserting an id keeps the ids present and adds it.
proof fn lemma_insert_species_contains(s: Seq<u32>, x: u32)
    ensures
        insert_species(s, x).contains(x),
        forall|y: u32| s.contains(y) ==> insert_species(s, x).contains(y),
    decreases s.len(),
{
    if s.len() == 0 {
        assert(seq![x][0] == x);
    } else if s.last() < x {
        assert(s.push(x)[s.len() as int] == x);
        assert forall|y: u32| s.contains(y) implies s.push(x).contains(y) by {
            let k = choose|k: int| 0 <= k < s.len() && s[k] == y;
            assert(s.push(x)[k] == y);
        }
    } else if s.last() == x {
        assert(s[s.len() - 1] == x);
    } else {
        let d = s.drop_last();
        lemma_insert_species_contains(d, x);
        let r = insert_species(d, x);
        let k0 = choose|k: int| 0 <= k < r.len() && r[k] == x;
        assert(r.push(s.last())[k0] == x);
        assert forall|y: u32| s.contains(y) implies r.push(s.last()).contains(y) by {
            let k = choose|k: int| 0 <= k < s.len() && s[k] == y;
            if k == s.len() - 1 {
                assert(r.push(s.last())[r.len() as int] == y);
            } else {
                assert(d[k] == y);
                assert(d.contains(y));
                let j = choose|j: int| 0 <= j < r.len() && r[j] == y;
                assert(r.push(s.last())[j] == y);
            }
        }
    }
}

/// Every spawn's species is among the distinct species.
proof fn lemma_species_of_contains(spawns: Seq<PlannedSpawn>)
    ensures
        forall|i: int| 0 <= i < spawns.len() ==> species_of(spawns).contains(#[trigger] spawns[i].species),
    decreases spawns.len(),
{
    if spawns.len() > 0 {
        let d = spawns.drop_last();
        lemma_species_of_contains(d);
        lemma_insert_species_contains(species_of(d), spawns.last().species);
        assert forall|i: int| 0 <= i < spawns.len() implies species_of(spawns).contains(#[trigger] spawns[i].species) by {
            if i < spawns.len() - 1 {
                assert(d[i] == spawns[i]);
            }
        }
    }
}

/// The distinct species of `spawns`, ascending (see [`species_of`]).
pub fn distinct_species(spawns: &[PlannedSpawn]) -> (r: Vec<u32>)
    ensures
        r@ == species_of(spawns@),
{
    let mut out: Vec<u32> = Vec::new();
    let mut i: usize = 0;
    while i < spawns.len()
        invariant
            i <= spawns@.len(),
            out@ == species_of(spawns@.take(i as int)),
        decreases spawns@.len() - i,
    {
        let x = spawns[i].species;
        let mut p: usize = out.len();
        while p > 0 && out[p - 1] > x
            invariant
                p <= out@.len(),
                forall|k: int| p <= k < out@.len() ==> #[trigger] out@[k] > x,
            decreases p,
        {
            p = p - 1;
        }
        proof {
            lemma_insert_species_at(out@, x, p as int);
            let t = spawns@.take(i + 1);
            assert(t.drop_last() =~= spawns@.take(i as int));
            assert(t.last().species == x);
        }
        if !(p > 0 && out[p - 1] == x) {
            out.insert(p, x);
        }
        i = i + 1;
    }
    assert(spawns@.take(spawns@.len() as int) =~= spawns@);
    out
}

/// The first `x` found by scanning from the front is at [`rank_of`].
proof fn lemma_rank_at(ids: Seq<u32>, x: u32, k: int)
    requires
        0 <= k < ids.len(),
        ids[k] == x,
        forall|j: int| 0 <= j < k ==> #[trigger] ids[j] != x,
    ensures
        rank_of(ids, x) == k,
    decreases k,
{
    if k > 0 {
        let d = ids.drop_first();
        assert forall|j: int| 0 <= j < k - 1 implies #[trigger] d[j] != x by {
            assert(d[j] == ids[j + 1]);
        }
        assert(d[k - 1] == ids[k]);
        lemma_rank_at(d, x, k - 1);
    }
}

/// Position of `x` in `ids` (see [`rank_of`]).
fn rank(ids: &Vec<u32>, x: u32) -> (k: usize)
    requires
        ids@.contains(x),
    ensures
        k == rank_of(ids@, x),
        k < ids@.len(),
{
    let count = ids.len();
    let mut k: usize = 0;
    while ids[k] != x
        invariant
            count == ids@.len(),
            k < ids@.len(),
            ids@.contains(x),
            forall|j: int| 0 <= j < k ==> #[trigger] ids@[j] != x,
        decreases ids@.len() - k,
    {
        assert(k + 1 < ids@.len()) by {
            let w = choose|w: int| 0 <= w < ids@.len() && ids@[w] == x;
            assert(w > k);
        }
        k = k + 1;
    }
    proof {
        lemma_rank_at(ids@, x, k as int);
    }
    k
}

/// `(a + b) % n` for `a < n` and `b <= n`, without overflow.
fn wrap_add(a: usize, b: usize, n: usize) -> (r: usize)
    requires
        a < n,
        b <= n,
    ensures
        r == (a + b) % (n as int),
        r < n,
{
    if b >= n - a {
        proof {
            assert((a + b) % (n as int) == a + b - n) by {
                vstd::arithmetic::div_mod::lemma_fundamental_div_mod_converse(
                    (a + b) as int,
                    n as int,
                    1,
                    (a + b - n) as int,
                );
            }
        }
        a - (n - b)
    } else {
        proof {
            vstd::arithmetic::div_mod::lemma_small_mod((a + b) as nat, n as nat);
        }
        a + b
    }
}

/// Where band `k` starts (see [`band_start_of`]).
fn band_start_at(start: usize, lens: &[usize], k: usize, n: usize) -> (r: usize)
    requires
        start < n,
        k <= lens@.len(),
        forall|j: int| 0 <= j < lens@.len() ==> #[trigger] lens@[j] <= n,
    ensures
        r == band_start_of(start as int, lens@, k as int, n as int),
        r < n,
{
    let mut cur: usize = start;
    let mut j: usize = 0;
    while j < k
        invariant
            j <= k <= lens@.len(),
            cur < n,
            cur == band_start_of(start as int, lens@, j as int, n as int),
            forall|i: int| 0 <= i < lens@.len() ==> #[trigger] lens@[i] <= n,
        decreases k - j,
    {
        cur = wrap_add(cur, lens[j], n);
        j = j + 1;
    }
    cur
}

/// How many of the first `i` spawns are of `species` (see [`uses_before`]).
fn count_uses(spawns: &[PlannedSpawn], i: usize, species: u32) -> (r: usize)
    requires
        i <= spawns@.len(),
    ensures
        r == uses_before(spawns@, i as int, species),
        r <= i,
{
    let mut count: usize = 0;
    let mut j: usize = 0;
    while j < i
        invariant
            j <= i <= spawns@.len(),
            count == uses_before(spawns@, j as int, species),
            count <= j,
        decreases i - j,
    {
        if spawns[j].species == species {
            count = count + 1;
        }
        j = j + 1;
    }
    count
}

/// When `cell` is free again after the first `i` spawns (see [`ready_time`]).
fn ready_at(spawns: &[PlannedSpawn], spawn_cells: &Vec<CellCoord>, times: &Vec<u64>, i: usize, cell: CellCoord) -> (r: u64)
    requires
        i <= spawns@.len(),
        i <= spawn_cells@.len(),
        i <= times@.len(),
    ensures
        r == ready_time(spawns@, spawn_cells@, times@, i as int, cell),
{
    let mut j: usize = i;
    while j > 0 && spawn_cells[j - 1] != cell
        invariant
            j <= i,
            i <= spawns@.len(),
            i <= spawn_cells@.len(),
            i <= times@.len(),
            ready_time(spawns@, spawn_cells@, times@, i as int, cell) == ready_time(
                spawns@,
                spawn_cells@,
                times@,
                j as int,
                cell,
            ),
        decreases j,
    {
        j = j - 1;
    }
    if j == 0 {
        0
    } else {
        let t = times[j - 1];
        let step = spawns[j - 1].step_ms as u64;
        if t > u64::MAX - step {
            u64::MAX
        } else {
            t + step
        }
    }
}

/// Inserting at the position found by scanning back over later entries is [`insert_entry`].
proof fn lemma_insert_entry_at(s: Seq<ScheduledSpawn>, e: ScheduledSpawn, p: int)
    requires
        0 <= p <= s.len(),
        forall|k: int| p <= k < s.len() ==> !entry_le(#[trigger] s[k], e),
        p > 0 ==> entry_le(s[p - 1], e),
    ensures
        insert_entry(s, e) == s.insert(p, e),
    decreases s.len(),
{
    if s.len() == 0 {
        assert(s.insert(p, e) =~= seq![e]);
    } else if p == s.len() {
        assert(s.insert(p, e) =~= s.push(e));
    } else {
        let d = s.drop_last();
        assert(s.last() == s[s.len() - 1]);
        assert forall|k: int| p <= k < d.len() implies !entry_le(#[trigger] d[k], e) by {
            assert(d[k] == s[k]);
        }
        if p > 0 {
            assert(d[p - 1] == s[p - 1]);
        }
        lemma_insert_entry_at(d, e, p);
        assert(d.insert(p, e).push(s.last()) =~= s.insert(p, e));
    }
}

/// Whether `a` comes no later than `b` in the schedule (see [`entry_le`]).
fn entry_before(a: &ScheduledSpawn, b: &ScheduledSpawn) -> (r: bool)
    ensures
        r == entry_le(*a, *b),
{
    a.at_ms < b.at_ms || (a.at_ms == b.at_ms && (a.spawner.row < b.spawner.row || (a.spawner.row
        == b.spawner.row && a.spawner.column <= b.spawner.column)))
}

/// The entries ordered by time, then spawner, then given order (see [`ordered_entries`]).
fn order_entries(entries: &Vec<ScheduledSpawn>) -> (r: Vec<ScheduledSpawn>)
    ensures
        r@ == ordered_entries(entries@),
{
    let mut out: Vec<ScheduledSpawn> = Vec::new();
    let mut i: usize = 0;
    while i < entries.len()
        invariant
            i <= entries@.len(),
            out@ == ordered_entries(entries@.take(i as int)),
        decreases entries@.len() - i,
    {
        let e = entries[i];
        let mut p: usize = out.len();
        while p > 0 && !entry_before(&out[p - 1], &e)
            invariant
                p <= out@.len(),
                forall|k: int| p <= k < out@.len() ==> !entry_le(#[trigger] out@[k], e),
            decreases p,
        {
            p = p - 1;
        }
        proof {
            lemma_insert_entry_at(out@, e, p as int);
            let t = entries@.take(i + 1);
            assert(t.drop_last() =~= entries@.take(i as int));
            assert(t.last() == e);
        }
        out.insert(p, e);
        i = i + 1;
    }
    assert(entries@.take(entries@.len() as int) =~= entries@);
    out
}

/// Schedules the wave's planned spawns (see [`wave_schedule`]): the first
/// band starts at spawner `band_start` (in row-then-column order) and the
/// bands of the distinct species, ascending (see [`distinct_species`]), are
/// `band_lengths` long. Nothing is scheduled without spawns or spawners.
pub fn schedule_wave_spawns(
    spawns: &[PlannedSpawn],
    spawners: &[CellCoord],
    band_start: usize,
    band_lengths: &[usize],
) -> (r: Vec<ScheduledSpawn>)
    requires
        spawners@.len() > 0 ==> band_start < spawners@.len(),
        spawners@.len() > 0 ==> band_lengths@.len() == species_of(spawns@).len(),
        spawners@.len() > 0 ==> forall|k: int|
            0 <= k < band_lengths@.len() ==> 1 <= #[trigger] band_lengths@[k] <= spawners@.len(),
    ensures
        r@ == wave_schedule(spawns@, spawners@, band_start as int, band_lengths@),
{
    if spawns.len() == 0 || spawners.len() == 0 {
        return Vec::new();
    }
    let cells = order_spawners(spawners);
    let ids = distinct_species(spawns);
    proof {
        lemma_species_of_contains(spawns@);
    }
    let n = cells.len();
    let ghost gcells = cells@;
    let ghost start = band_start as int;
    let mut spawn_cells: Vec<CellCoord> = Vec::new();
    let mut i: usize = 0;
    while i < spawns.len()
        invariant
            i <= spawns@.len(),
            n == cells@.len(),
            n == spawners@.len(),
            n > 0,
            cells@ == ordered_spawners(spawners@),
            ids@ == species_of(spawns@),
            band_start < n,
            band_lengths@.len() == ids@.len(),
            forall|k: int| 0 <= k < band_lengths@.len() ==> 1 <= #[trigger] band_lengths@[k] <= n,
            forall|j: int| 0 <= j < spawns@.len() ==> ids@.contains(#[trigger] spawns@[j].species),
            spawn_cells@ =~= Seq::new(
                i as nat,
                |j: int| spawn_cell(spawns@, cells@, band_start as int, band_lengths@, j),
            ),
        decreases spawns@.len() - i,
    {
        let species = spawns[i].species;
        let k = rank(&ids, species);
        let len = band_lengths[k];
        let first = band_start_at(band_start, band_lengths, k, n);
        let used = count_uses(spawns, i, species);
        let o = used % len;
        let idx = if len == n {
            o
        } else {
            wrap_add(first, o, n)
        };
        spawn_cells.push(cells[idx]);
        i = i + 1;
    }
    let ghost gspawn_cells = spawn_cells@;
    let mut times: Vec<u64> = Vec::new();
    let mut i: usize = 0;
    while i < spawns.len()
        invariant
            i <= spawns@.len(),
            spawn_cells@.len() == spawns@.len(),
            times@ == spawn_times(spawns@, spawn_cells@, i as nat),
            times@.len() == i,
        decreases spawns@.len() - i,
    {
        let ready = ready_at(spawns, &spawn_cells, &times, i, spawn_cells[i]);
        let planned = spawns[i].time_ms as u64;
        times.push(if planned >= ready { planned } else { ready });
        i = i + 1;
    }
    let mut entries: Vec<ScheduledSpawn> = Vec::new();
    let mut i: usize = 0;
    while i < spawns.len()
        invariant
            i <= spawns@.len(),
            spawn_cells@.len() == spawns@.len(),
            times@.len() == spawns@.len(),
            entries@ =~= Seq::new(
                i as nat,
                |j: int|
                    ScheduledSpawn {
                        at_ms: times@[j],
                        spawner: spawn_cells@[j],
                        species: spawns@[j].species,
                        health: spawns@[j].health,
                        step_ms: spawns@[j].step_ms,
                    },
            ),
        decreases spawns@.len() - i,
    {
        entries.push(
            ScheduledSpawn {
                at_ms: times[i],
                spawner: spawn_cells[i],
                species: spawns[i].species,
                health: spawns[i].health,
                step_ms: spawns[i].step_ms,
            },
        );
        i = i + 1;
    }
    order_entries(&entries)
}

/// The band lengths of `count` species given `drawn` lengths: the drawn ones
/// when the bounds differ, else the one possible length `lo`.
pub open spec fn band_lengths_of(count: int, lo: int, hi: int, drawn: Seq<u64>) -> Seq<usize> {
    if lo < hi {
        drawn.map_values(|v: u64| v as usize)
    } else {
        Seq::new(count as nat, |k: int| lo as usize)
    }
}

/// Plans a wave's spawns from `seed`: the first band's start and, when the
/// band bounds for the spawner count differ (see [`band_bounds`]), one band
/// length per distinct species are drawn from `ChaCha8Rng` seeded with
/// `seed`; then the spawns are scheduled (see [`schedule_wave_spawns`]).
/// Nothing is drawn or scheduled without spawns or spawners.
pub fn plan_wave_spawns(spawns: &[PlannedSpawn], spawners: &[CellCoord], seed: u64) -> (r: Vec<ScheduledSpawn>)
    ensures
        spawns@.len() == 0 || spawners@.len() == 0 ==> r@.len() == 0,
        spawns@.len() > 0 && spawners@.len() > 0 ==> {
            let n = spawners@.len() as int;
            let (lo, hi) = band_bounds(n);
            let count = species_of(spawns@).len() as int;
            let draws = chacha_band_draws(seed, n as u64, if lo < hi { count as u64 } else { 0 }, lo as u64, hi as u64);
            r@ == wave_schedule(spawns@, spawners@, draws.0 as int, band_lengths_of(count, lo, hi, draws.1))
        },
{
    if spawns.len() == 0 || spawners.len() == 0 {
        return Vec::new();
    }
    let n = spawners.len();
    let lo: usize = if MIN_SPAWN_BAND < n { MIN_SPAWN_BAND } else { n };
    let hi: usize = if MAX_SPAWN_BAND < n { MAX_SPAWN_BAND } else { n };
    let species = distinct_species(spawns);
    let count = species.len();
    proof {
        lemma_species_count(spawns@);
    }
    let draws: u64 = if lo < hi { count as u64 } else { 0 };
    let (start, drawn) = draw_spawn_bands(seed, n as u64, draws, lo as u64, hi as u64);
    let mut lengths: Vec<usize> = Vec::new();
    let mut k: usize = 0;
    while k < count
        invariant
            k <= count,
            count == species@.len(),
            drawn@.len() == draws,
            draws == if lo < hi { count as u64 } else { 0 },
            1 <= lo <= hi <= n,
            forall|j: int| 0 <= j < drawn@.len() ==> lo <= #[trigger] drawn@[j] <= hi,
            lengths@ == band_lengths_of(count as int, lo as int, hi as int, drawn@).take(k as int),
        decreases count - k,
    {
        let length: usize = if lo < hi { drawn[k] as usize } else { lo };
        lengths.push(length);
        k = k + 1;
        assert(lengths@ =~= band_lengths_of(count as int, lo as int, hi as int, drawn@).take(k as int));
    }
    assert(lengths@ =~= band_lengths_of(count as int, lo as int, hi as int, drawn@));
    schedule_wave_spawns(spawns, spawners, start as usize, lengths.as_slice())
}

/// There are no more distinct species than spawns.
proof fn lemma_species_count(spawns: Seq<PlannedSpawn>)
    ensures
        species_of(spawns).len() <= spawns.len(),
    decreases spawns.len(),
{
    if spawns.len() > 0 {
        lemma_species_count(spawns.drop_last());
        lemma_insert_species_len(species_of(spawns.drop_last()), spawns.last().species);
    }
}

/// Adding an id adds at most one.
proof fn lemma_insert_species_len(s: Seq<u32>, x: u32)
    ensures
        insert_species(s, x).len() <= s.len() + 1,
    decreases s.len(),
{
    if s.len() > 0 && s.last() > x {
        lemma_insert_species_len(s.drop_last(), x);
    }
}

} // verus!
