//! Dense per-cell views: navigation distances, occupancy and reservations.

use vstd::prelude::*;
use super::geometry::CellCoord;
use super::values::{BugId, Direction};

verus! {

/// Row-major offset of `cell` in a grid `width` cells wide.
pub open spec fn row_major(cell: CellCoord, width: int) -> int {
    cell.row * width + cell.column
}

/// Row-major offset of an in-bounds cell, computed without overflow.
pub fn cell_offset(cell: CellCoord, width: u32, height: u32) -> (r: u64)
    requires
        cell.column < width,
        cell.row < height,
    ensures
        r == row_major(cell, width as int),
        r < width * height,
{
    proof {
        assert(cell.row * width + cell.column < width * height) by (nonlinear_arith)
            requires
                cell.column < width,
                cell.row < height,
        ;
        assert(width * height <= 0xffff_ffff * 0xffff_ffffint) by (nonlinear_arith)
            requires
                width <= 0xffff_ffff,
                height <= 0xffff_ffff,
        ;
    }
    cell.row as u64 * width as u64 + cell.column as u64
}

/// Read-only snapshot of pre-computed navigation distances in row-major order.
#[derive(Clone, Debug, PartialEq, Eq)]
pub struct NavigationFieldView {
    pub width: u32,
    pub height: u32,
    pub distances: Vec<u16>,
}

/// Distance stored for `cell`, when the cell lies inside the field.
pub open spec fn field_distance(width: u32, height: u32, distances: Seq<u16>, cell: CellCoord) -> Option<u16> {
    if cell.column < width && cell.row < height && row_major(cell, width as int) < distances.len() {
        Some(distances[row_major(cell, width as int)])
    } else {
        None
    }
}

impl NavigationFieldView {
    /// The distance the view reports for `cell`.
    pub open spec fn spec_distance(&self, cell: CellCoord) -> Option<u16> {
        field_distance(self.width, self.height, self.distances@, cell)
    }

    /// Captures a new view holding a copy of the provided distances, whose
    /// length must be `width * height`.
    pub fn from_slice(distances: &[u16], width: u32, height: u32) -> (v: Self)
        requires
            distances@.len() == width * height,
        ensures
            v.width == width,
            v.height == height,
            v.distances@ == distances@,
    {
        let mut owned: Vec<u16> = Vec::new();
        let mut i: usize = 0;
        while i < distances.len()
            invariant
                i <= distances@.len(),
                owned@ == distances@.take(i as int),
            decreases distances@.len() - i,
        {
            owned.push(distances[i]);
            i = i + 1;
            assert(owned@ =~= distances@.take(i as int));
        }
        assert(distances@.take(distances@.len() as int) =~= distances@);
        Self::from_owned(owned, width, height)
    }

    /// Captures a new view that owns its distances, whose length must be
    /// `width * height`.
    pub fn from_owned(distances: Vec<u16>, width: u32, height: u32) -> (v: Self)
        requires
            distances@.len() == width * height,
        ensures
            v.width == width,
            v.height == height,
            v.distances@ == distances@,
    {
        Self::with_distances(distances, width, height)
    }

    /// Builds a view over `distances`, whose length must be `width * height`.
    pub fn with_distances(distances: Vec<u16>, width: u32, height: u32) -> (v: Self)
        requires
            distances@.len() == width * height,
        ensures
            v.width == width,
            v.height == height,
            v.distances@ == distances@,
    {
        Self { width, height, distances }
    }

    /// Number of cells in a field of the given dimensions.
    pub fn expected_len(width: u32, height: u32) -> (r: usize)
        requires
            width * height <= usize::MAX,
        ensures
            r == width * height,
    {
        width as usize * height as usize
    }

    /// Row-major index of `cell`, if it lies inside the field.
    pub fn index_of(&self, cell: CellCoord) -> (r: Option<usize>)
        requires
            self.width * self.height <= usize::MAX,
        ensures
            r == if cell.column < self.width && cell.row < self.height {
                Some(row_major(cell, self.width as int) as usize)
            } else {
                None::<usize>
            },
    {
        if cell.column >= self.width || cell.row >= self.height {
            return None;
        }
        proof {
            assert(cell.row * self.width + cell.column < self.width * self.height) by (nonlinear_arith)
                requires
                    cell.column < self.width,
                    cell.row < self.height,
            ;
            assert(cell.row * self.width <= self.width * self.height) by (nonlinear_arith)
                requires
                    cell.row < self.height,
            ;
        }
        Some(cell.row as usize * self.width as usize + cell.column as usize)
    }

    /// Width of the navigation field measured in cells.
    pub fn width(&self) -> (r: u32)
        ensures
            r == self.width,
    {
        self.width
    }

    /// Height of the navigation field measured in cells.
    pub fn height(&self) -> (r: u32)
        ensures
            r == self.height,
    {
        self.height
    }

    /// Immutable view of the dense distances stored in row-major order.
    pub fn cells(&self) -> (r: &[u16])
        ensures
            r@ == self.distances@,
    {
        self.distances.as_slice()
    }

    /// Reports the stored distance for the provided cell, if within bounds.
    pub fn distance(&self, cell: CellCoord) -> (r: Option<u16>)
        ensures
            r == self.spec_distance(cell),
    {
        if cell.column >= self.width || cell.row >= self.height {
            return None;
        }
        let offset = cell_offset(cell, self.width, self.height);
        if offset < self.distances.len() as u64 {
            Some(self.distances[offset as usize])
        } else {
            None
        }
    }

    /// All distances in row-major order.
    pub fn iter(&self) -> (r: &[u16])
        ensures
            r@ == self.distances@,
    {
        self.distances.as_slice()
    }

    /// Converts the view into an owned variant.
    pub fn into_owned(self) -> (r: Self)
        ensures
            r == self,
    {
        self
    }
}

/// Immutable claim describing a bug's requested destination for the current tick.
#[derive(Clone, Copy, Debug, PartialEq, Eq, Structural)]
pub struct ReservationClaim {
    pub bug_id: BugId,
    pub direction: Direction,
}

impl ReservationClaim {
    /// Creates a new reservation claim for the provided bug and direction.
    pub fn new(bug_id: BugId, direction: Direction) -> (c: Self)
        ensures
            c.bug_id == bug_id,
            c.direction == direction,
    {
        Self { bug_id, direction }
    }

    /// Identifier of the bug that owns the reservation.
    pub fn bug_id(&self) -> (r: BugId)
        ensures
            r == self.bug_id,
    {
        self.bug_id
    }

    /// Direction the bug intends to travel during this tick.
    pub fn direction(&self) -> (r: Direction)
        ensures
            r == self.direction,
    {
        self.direction
    }
}

/// Claims `s` ordered by bug id: each claim's bug id is at most the next one's.
pub open spec fn sorted_by_bug_id(s: Seq<ReservationClaim>) -> bool {
    forall|i: int, j: int| 0 <= i < j < s.len() ==> #[trigger] s[i].bug_id.0 <= #[trigger] s[j].bug_id.0
}

/// `c` placed into `s` right after the last claim whose bug id is not larger
/// than its own.
pub open spec fn insert_claim(s: Seq<ReservationClaim>, c: ReservationClaim) -> Seq<ReservationClaim>
    decreases s.len(),
{
    if s.len() == 0 {
        seq![c]
    } else if s.last().bug_id.0 <= c.bug_id.0 {
        s.push(c)
    } else {
        insert_claim(s.drop_last(), c).push(s.last())
    }
}

/// The claims of `s` ordered by bug id; claims of one bug keep their order in `s`.
pub open spec fn sorted_claims(s: Seq<ReservationClaim>) -> Seq<ReservationClaim>
    decreases s.len(),
{
    if s.len() == 0 {
        s
    } else {
        insert_claim(sorted_claims(s.drop_last()), s.last())
    }
}

/// Inserting at the position found by scanning back over larger bug ids is [`insert_claim`].
proof fn lemma_insert_claim_at(s: Seq<ReservationClaim>, c: ReservationClaim, p: int)
    requires
        0 <= p <= s.len(),
        forall|k: int| p <= k < s.len() ==> #[trigger] s[k].bug_id.0 > c.bug_id.0,
        p > 0 ==> s[p - 1].bug_id.0 <= c.bug_id.0,
    ensures
        insert_claim(s, c) == s.insert(p, c),
    decreases s.len(),
{
    if s.len() == 0 {
        assert(s.insert(p, c) =~= seq![c]);
    } else if p == s.len() {
        assert(s.insert(p, c) =~= s.push(c));
    } else {
        let d = s.drop_last();
        assert(s.last() == s[s.len() - 1]);
        assert forall|k: int| p <= k < d.len() implies #[trigger] d[k].bug_id.0 > c.bug_id.0 by {
            assert(d[k] == s[k]);
        }
        if p > 0 {
            assert(d[p - 1] == s[p - 1]);
        }
        lemma_insert_claim_at(d, c, p);
        assert(d.insert(p, c).push(s.last()) =~= s.insert(p, c));
    }
}

/// Inserting into an ordered sequence keeps it ordered and adds exactly `c`.
proof fn lemma_insert_claim(s: Seq<ReservationClaim>, c: ReservationClaim)
    requires
        sorted_by_bug_id(s),
    ensures
        sorted_by_bug_id(insert_claim(s, c)),
        insert_claim(s, c).to_multiset() == s.to_multiset().insert(c),
    decreases s.len(),
{
    broadcast use vstd::seq_lib::to_multiset_build, vstd::seq_lib::to_multiset_contains;
    if s.len() == 0 {
        assert(seq![c] =~= s.push(c));
    } else if s.last().bug_id.0 <= c.bug_id.0 {
        let r = s.push(c);
        assert forall|i: int, j: int| 0 <= i < j < r.len() implies #[trigger] r[i].bug_id.0 <= #[trigger] r[j].bug_id.0 by {
            if j == s.len() {
                assert(s[i].bug_id.0 <= s[s.len() - 1].bug_id.0);
            }
        }
    } else {
        let d = s.drop_last();
        let last = s.last();
        assert(sorted_by_bug_id(d)) by {
            assert forall|i: int, j: int| 0 <= i < j < d.len() implies #[trigger] d[i].bug_id.0 <= #[trigger] d[j].bug_id.0 by {
                assert(d[i] == s[i] && d[j] == s[j]);
            }
        }
        lemma_insert_claim(d, c);
        let q = insert_claim(d, c);
        let r = q.push(last);
        assert forall|i: int| 0 <= i < q.len() implies #[trigger] q[i].bug_id.0 <= last.bug_id.0 by {
            assert(q.contains(q[i]));
            assert(q.to_multiset().count(q[i]) > 0);
            if q[i] != c {
                assert(d.to_multiset().count(q[i]) > 0);
                assert(d.contains(q[i]));
                let k = choose|k: int| 0 <= k < d.len() && d[k] == q[i];
                assert(d[k] == s[k]);
                assert(s[k].bug_id.0 <= s[s.len() - 1].bug_id.0);
            }
        }
        assert forall|i: int, j: int| 0 <= i < j < r.len() implies #[trigger] r[i].bug_id.0 <= #[trigger] r[j].bug_id.0 by {
            if j == q.len() {
                assert(q[i].bug_id.0 <= last.bug_id.0);
            } else {
                assert(r[i] == q[i] && r[j] == q[j]);
            }
        }
        assert(s =~= d.push(last));
        assert(s.to_multiset() == d.to_multiset().insert(last));
        assert(r.to_multiset() =~= s.to_multiset().insert(c));
    }
}

/// Ordering by bug id yields an ordered rearrangement of the claims.
pub proof fn lemma_sorted_claims(s: Seq<ReservationClaim>)
    ensures
        sorted_by_bug_id(sorted_claims(s)),
        sorted_claims(s).to_multiset() == s.to_multiset(),
    decreases s.len(),
{
    broadcast use vstd::seq_lib::to_multiset_build;
    if s.len() > 0 {
        let d = s.drop_last();
        lemma_sorted_claims(d);
        lemma_insert_claim(sorted_claims(d), s.last());
        assert(s =~= d.push(s.last()));
    }
}

/// Copies `claims` ordered by bug id (see [`sorted_claims`]).
fn sort_by_bug_id(claims: &[ReservationClaim]) -> (r: Vec<ReservationClaim>)
    ensures
        r@ == sorted_claims(claims@),
{
    let mut out: Vec<ReservationClaim> = Vec::new();
    let mut i: usize = 0;
    while i < claims.len()
        invariant
            i <= claims@.len(),
            out@ == sorted_claims(claims@.take(i as int)),
        decreases claims@.len() - i,
    {
        let c = claims[i];
        let mut p: usize = out.len();
        while p > 0 && out[p - 1].bug_id.0 > c.bug_id.0
            invariant
                p <= out@.len(),
                forall|k: int| p <= k < out@.len() ==> #[trigger] out@[k].bug_id.0 > c.bug_id.0,
            decreases p,
        {
            p = p - 1;
        }
        proof {
            lemma_insert_claim_at(out@, c, p as int);
            let t = claims@.take(i + 1);
            assert(t.drop_last() =~= claims@.take(i as int));
            assert(t.last() == c);
        }
        out.insert(p, c);
        i = i + 1;
    }
    assert(claims@.take(claims@.len() as int) =~= claims@);
    out
}

/// Read-only snapshot enumerating all pending movement reservations.
#[derive(Clone, Debug, PartialEq, Eq)]
pub struct ReservationLedgerView {
    pub claims: Vec<ReservationClaim>,
}

impl ReservationLedgerView {
    /// Captures a ledger view holding the claims ordered by bug id; claims of
    /// one bug keep their given order.
    pub fn from_slice(claims: &[ReservationClaim]) -> (v: Self)
        ensures
            v.claims@ == sorted_claims(claims@),
            sorted_by_bug_id(v.claims@),
            v.claims@.to_multiset() == claims@.to_multiset(),
    {
        proof {
            lemma_sorted_claims(claims@);
        }
        Self { claims: sort_by_bug_id(claims) }
    }

    /// Captures a ledger view that owns the provided reservation claims,
    /// ordered by bug id; claims of one bug keep their given order.
    pub fn from_owned(claims: Vec<ReservationClaim>) -> (v: Self)
        ensures
            v.claims@ == sorted_claims(claims@),
            sorted_by_bug_id(v.claims@),
            v.claims@.to_multiset() == claims@.to_multiset(),
    {
        proof {
            lemma_sorted_claims(claims@);
        }
        Self { claims: sort_by_bug_id(claims.as_slice()) }
    }

    /// Number of claims stored in the ledger.
    pub fn len(&self) -> (r: usize)
        ensures
            r == self.claims@.len(),
    {
        self.claims.len()
    }

    /// Reports whether the ledger tracks any reservations.
    pub fn is_empty(&self) -> (r: bool)
        ensures
            r == (self.claims@.len() == 0),
    {
        self.claims.len() == 0
    }

    /// The captured reservation claims, in the order the ledger holds them.
    pub fn iter(&self) -> (r: &[ReservationClaim])
        ensures
            r@ == self.claims@,
    {
        self.claims.as_slice()
    }

    /// Retrieves the first reservation registered for the provided bug, if any.
    pub fn claim_for(&self, bug_id: BugId) -> (r: Option<ReservationClaim>)
        ensures
            r is None <==> forall|i: int| 0 <= i < self.claims@.len() ==> #[trigger] self.claims@[i].bug_id != bug_id,
            r matches Some(c) ==> exists|i: int| 0 <= i < self.claims@.len()
                && #[trigger] self.claims@[i] == c && c.bug_id == bug_id
                && forall|j: int| 0 <= j < i ==> self.claims@[j].bug_id != bug_id,
    {
        let mut i: usize = 0;
        while i < self.claims.len()
            invariant
                i <= self.claims@.len(),
                forall|j: int| 0 <= j < i ==> self.claims@[j].bug_id != bug_id,
            decreases self.claims@.len() - i,
        {
            if self.claims[i].bug_id == bug_id {
                assert(self.claims@[i as int] == self.claims[i as int]);
                return Some(self.claims[i]);
            }
            i = i + 1;
        }
        None
    }

    /// Consumes the view, yielding an owned ledger snapshot.
    pub fn into_owned(self) -> (r: Self)
        ensures
            r == self,
    {
        self
    }
}

/// Read-only view into the dense occupancy grid (row-major).
#[derive(Clone, Debug)]
pub struct OccupancyView {
    pub cells: Vec<Option<BugId>>,
    pub columns: u32,
    pub rows: u32,
}

/// Occupant recorded for `cell`, or `None` outside the grid.
pub open spec fn occupant_of(cells: Seq<Option<BugId>>, columns: u32, rows: u32, cell: CellCoord) -> Option<BugId> {
    if cell.column < columns && cell.row < rows && row_major(cell, columns as int) < cells.len() {
        cells[row_major(cell, columns as int)]
    } else {
        None
    }
}

impl OccupancyView {
    /// The occupant the view reports for `cell`.
    pub open spec fn spec_occupant(&self, cell: CellCoord) -> Option<BugId> {
        occupant_of(self.cells@, self.columns, self.rows, cell)
    }

    /// Captures a new occupancy view backed by the provided cells.
    pub fn new(cells: Vec<Option<BugId>>, columns: u32, rows: u32) -> (v: Self)
        ensures
            v.cells@ == cells@,
            v.columns == columns,
            v.rows == rows,
    {
        Self { cells, columns, rows }
    }

    /// Returns the bug occupying the provided cell, if any.
    pub fn occupant(&self, cell: CellCoord) -> (r: Option<BugId>)
        ensures
            r == self.spec_occupant(cell),
    {
        if cell.column >= self.columns || cell.row >= self.rows {
            return None;
        }
        let offset = cell_offset(cell, self.columns, self.rows);
        if offset < self.cells.len() as u64 {
            self.cells[offset as usize]
        } else {
            None
        }
    }

    /// Reports whether the cell is free for traversal (no occupant recorded).
    pub fn is_free(&self, cell: CellCoord) -> (r: bool)
        ensures
            r == (self.spec_occupant(cell) is None),
    {
        self.occupant(cell).is_none()
    }

    /// All cells in row-major order.
    pub fn iter(&self) -> (r: &[Option<BugId>])
        ensures
            r@ == self.cells@,
    {
        self.cells.as_slice()
    }

    /// Provides the dimensions of the underlying occupancy grid.
    pub fn dimensions(&self) -> (r: (u32, u32))
        ensures
            r == (self.columns, self.rows),
    {
        (self.columns, self.rows)
    }
}

} // verus!
