//! Identifiers, resources, modes and tower parameters.

use vstd::prelude::*;

verus! {

/// Canonical banner emitted when the experience boots.
pub const WELCOME_BANNER: &'static str = "Welcome to Maze Defence.";

/// Number of cells a congestion probe inspects ahead of each bug.
pub const CONGESTION_LOOKAHEAD: u32 = 5;

/// Multiplier applied to congestion samples when scoring neighbours.
pub const CONGESTION_WEIGHT: u32 = 3;

/// Depth limit for the bounded detour breadth-first search.
pub const DETOUR_RADIUS: u32 = 6;

/// Describes the active gameplay mode for the simulation.
#[derive(Clone, Copy, Debug, PartialEq, Eq, Hash, Structural)]
pub enum PlayMode {
    /// Standard attack mode where bugs advance toward the target.
    Attack,
    /// Builder mode that pauses simulation to enable planning and placement.
    Builder,
}

/// Outcome emitted when resolving a round.
#[derive(Clone, Copy, Debug, PartialEq, Eq, Hash, Structural)]
pub enum RoundOutcome {
    /// The defenders cleared the round.
    Win,
    /// The defenders lost the round.
    Loss,
}

/// Cardinal movement directions available to bugs.
#[derive(Clone, Copy, Debug, PartialEq, Eq, Hash, Structural)]
pub enum Direction {
    /// Toward decreasing row indices.
    North,
    /// Toward increasing column indices.
    East,
    /// Toward increasing row indices.
    South,
    /// Toward decreasing column indices.
    West,
}

/// Visual appearance applied to a bug.
#[derive(Clone, Copy, Debug, PartialEq, Eq, Hash, Structural)]
pub struct BugColor {
    pub red: u8,
    pub green: u8,
    pub blue: u8,
}

impl BugColor {
    /// Creates a new bug color from byte RGB components.
    pub fn from_rgb(red: u8, green: u8, blue: u8) -> (c: Self)
        ensures
            c.red == red,
            c.green == green,
            c.blue == blue,
    {
        Self { red, green, blue }
    }

    /// Red component of the color.
    pub fn red(&self) -> (r: u8)
        ensures
            r == self.red,
    {
        self.red
    }

    /// Green component of the color.
    pub fn green(&self) -> (r: u8)
        ensures
            r == self.green,
    {
        self.green
    }

    /// Blue component of the color.
    pub fn blue(&self) -> (r: u8)
        ensures
            r == self.blue,
    {
        self.blue
    }
}

/// Unique identifier assigned to a bug.
#[derive(Clone, Copy, Debug, PartialEq, Eq, Hash, PartialOrd, Ord, Structural)]
pub struct BugId(pub u32);

impl BugId {
    /// Creates a new bug identifier with the provided numeric value.
    pub fn new(value: u32) -> (id: Self)
        ensures
            id.0 == value,
    {
        Self(value)
    }

    /// Retrieves the numeric representation of the identifier.
    pub fn get(&self) -> (r: u32)
        ensures
            r == self.0,
    {
        self.0
    }
}

/// Amount of health a bug currently possesses; zero represents a dead bug.
#[derive(Clone, Copy, Debug, PartialEq, Eq, Hash, Structural)]
pub struct Health(pub u32);

/// Fixed amount of damage applied to a bug in a single hit.
#[derive(Clone, Copy, Debug, PartialEq, Eq, Hash, Structural)]
pub struct Damage(pub u32);

/// Subtraction of naturals clamped at zero.
pub open spec fn sat_sub(a: int, b: int) -> int {
    if a >= b { a - b } else { 0 }
}

/// Addition clamped at `u32::MAX`.
pub open spec fn sat_add_u32(a: int, b: int) -> int {
    if a + b > u32::MAX { u32::MAX as int } else { a + b }
}

impl Health {
    /// Canonical zero value representing a dead bug.
    pub fn zero() -> (h: Self)
        ensures
            h.0 == 0,
    {
        Self(0)
    }

    /// Creates a new health value from the provided raw integer.
    pub fn new(value: u32) -> (h: Self)
        ensures
            h.0 == value,
    {
        Self(value)
    }

    /// Retrieves the underlying health amount.
    pub fn get(&self) -> (r: u32)
        ensures
            r == self.0,
    {
        self.0
    }

    /// Reports whether the health value equals zero.
    pub fn is_zero(self) -> (b: bool)
        ensures
            b == (self.0 == 0),
    {
        self.0 == 0
    }

    /// Subtracts the provided damage while saturating at zero.
    pub fn saturating_sub(self, damage: Damage) -> (h: Self)
        ensures
            h.0 == sat_sub(self.0 as int, damage.0 as int),
    {
        if self.0 >= damage.0 {
            Self(self.0 - damage.0)
        } else {
            Self(0)
        }
    }
}

impl Damage {
    /// Creates a new damage value from the provided raw integer.
    pub fn new(value: u32) -> (d: Self)
        ensures
            d.0 == value,
    {
        Self(value)
    }

    /// Retrieves the underlying damage amount.
    pub fn get(&self) -> (r: u32)
        ensures
            r == self.0,
    {
        self.0
    }
}

/// Amount of gold owned by the defending player.
#[derive(Clone, Copy, Debug, PartialEq, Eq, Hash, PartialOrd, Ord, Structural)]
pub struct Gold(pub u32);

impl Gold {
    /// Canonical zero value representing a lack of gold.
    pub fn zero() -> (g: Self)
        ensures
            g.0 == 0,
    {
        Self(0)
    }

    /// Creates a new gold value from the provided raw integer.
    pub fn new(value: u32) -> (g: Self)
        ensures
            g.0 == value,
    {
        Self(value)
    }

    /// Retrieves the underlying gold amount.
    pub fn get(&self) -> (r: u32)
        ensures
            r == self.0,
    {
        self.0
    }

    /// Adds another gold amount while saturating at `u32::MAX`.
    pub fn saturating_add(self, other: Self) -> (g: Self)
        ensures
            g.0 == sat_add_u32(self.0 as int, other.0 as int),
    {
        if self.0 > u32::MAX - other.0 {
            Self(u32::MAX)
        } else {
            Self(self.0 + other.0)
        }
    }

    /// Subtracts another gold amount while saturating at zero.
    pub fn saturating_sub(self, other: Self) -> (g: Self)
        ensures
            g.0 == sat_sub(self.0 as int, other.0 as int),
    {
        if self.0 >= other.0 {
            Self(self.0 - other.0)
        } else {
            Self(0)
        }
    }
}

/// Unique identifier assigned to a projectile fired by a tower.
#[derive(Clone, Copy, Debug, PartialEq, Eq, Hash, PartialOrd, Ord, Structural)]
pub struct ProjectileId(pub u32);

impl ProjectileId {
    /// Creates a new projectile identifier with the provided numeric value.
    pub fn new(value: u32) -> (id: Self)
        ensures
            id.0 == value,
    {
        Self(value)
    }

    /// Retrieves the numeric representation of the identifier.
    pub fn get(&self) -> (r: u32)
        ensures
            r == self.0,
    {
        self.0
    }
}

/// Unique identifier assigned to a tower.
#[derive(Clone, Copy, Debug, PartialEq, Eq, Hash, PartialOrd, Ord, Structural)]
pub struct TowerId(pub u32);

impl TowerId {
    /// Creates a new tower identifier with the provided numeric value.
    pub fn new(value: u32) -> (id: Self)
        ensures
            id.0 == value,
    {
        Self(value)
    }

    /// Retrieves the numeric representation of the tower identifier.
    pub fn get(&self) -> (r: u32)
        ensures
            r == self.0,
    {
        self.0
    }
}

/// Index within the tile grid measured in whole tiles rather than cells.
#[derive(Clone, Copy, Debug, PartialEq, Eq, Hash, PartialOrd, Ord, Structural)]
pub struct TileCoord(pub u32);

impl TileCoord {
    /// Creates a new tile coordinate wrapper.
    pub fn new(value: u32) -> (t: Self)
        ensures
            t.0 == value,
    {
        Self(value)
    }

    /// Retrieves the underlying tile index.
    pub fn get(&self) -> (r: u32)
        ensures
            r == self.0,
    {
        self.0
    }
}

/// A `u32` that is never zero.
#[derive(Clone, Copy, Debug, PartialEq, Eq, Hash, PartialOrd, Ord)]
pub struct NonZeroU32 {
    value: u32,
}

impl NonZeroU32 {
    #[verifier::type_invariant]
    spec fn well_formed(self) -> bool {
        self.value != 0
    }

    /// The wrapped value.
    pub closed spec fn spec_get(self) -> u32 {
        self.value
    }

    /// Wraps `value` unless it is zero.
    pub fn new(value: u32) -> (r: Option<Self>)
        ensures
            value == 0 ==> r is None,
            value != 0 ==> (r matches Some(n) && n.spec_get() == value),
    {
        if value == 0 {
            None
        } else {
            Some(Self { value })
        }
    }

    /// Returns the wrapped value.
    pub fn get(self) -> (r: u32)
        ensures
            r == self.spec_get(),
            r != 0,
    {
        proof {
            use_type_invariant(&self);
        }
        self.value
    }
}

/// Reasons the world may reject a projectile firing request.
#[derive(Clone, Copy, Debug, PartialEq, Eq, Hash, Structural)]
pub enum ProjectileRejection {
    /// Towers cannot fire while the simulation is in builder mode.
    InvalidMode,
    /// The tower's cooldown has not yet elapsed.
    CooldownActive,
    /// The tower does not exist.
    MissingTower,
    /// The intended bug target does not exist or already died.
    MissingTarget,
}

/// Reasons a tower placement request may be rejected by the world.
#[derive(Clone, Copy, Debug, PartialEq, Eq, Hash, Structural)]
pub enum PlacementError {
    /// The simulation is not in builder mode.
    InvalidMode,
    /// The requested region extends beyond the grid bounds.
    OutOfBounds,
    /// The origin cell does not satisfy alignment requirements.
    Misaligned,
    /// The footprint overlaps an occupied cell.
    Occupied,
    /// The placement would block all paths between the exit and bug spawners.
    PathBlocked,
    /// The tower's construction cost cannot be paid.
    InsufficientFunds,
}

/// Reasons a tower removal request may be rejected by the world.
#[derive(Clone, Copy, Debug, PartialEq, Eq, Hash, Structural)]
pub enum RemovalError {
    /// The simulation is not in builder mode.
    InvalidMode,
    /// No tower with the provided identifier exists.
    MissingTower,
}

/// Types of towers that can be constructed in the maze.
#[derive(Clone, Copy, Debug, PartialEq, Eq, Hash, Structural)]
pub enum TowerKind {
    /// Basic tower with default attack parameters.
    Basic,
}

/// Targeting range of a tower kind in tiles.
pub open spec fn spec_range_in_tiles(kind: TowerKind) -> int {
    match kind {
        TowerKind::Basic => 4,
    }
}

/// Targeting range in whole cells: `range_in_tiles * cells_per_tile`, zero for
/// a zero configuration, clamped to `u32::MAX`.
pub open spec fn spec_range_in_cells(kind: TowerKind, cells_per_tile: int) -> int {
    if cells_per_tile == 0 {
        0
    } else if spec_range_in_tiles(kind) * cells_per_tile > u32::MAX {
        u32::MAX as int
    } else {
        spec_range_in_tiles(kind) * cells_per_tile
    }
}

/// Cooldown between shots in milliseconds.
pub open spec fn spec_fire_cooldown_ms(kind: TowerKind) -> u32 {
    match kind {
        TowerKind::Basic => 1_000,
    }
}

/// Damage dealt by one projectile.
pub open spec fn spec_projectile_damage(kind: TowerKind) -> u32 {
    match kind {
        TowerKind::Basic => 1,
    }
}

/// Time for a projectile to traverse the tower's full range in milliseconds.
pub open spec fn spec_projectile_travel_time_ms(kind: TowerKind) -> u32 {
    match kind {
        TowerKind::Basic => 1_000,
    }
}

/// Gold required to build a tower.
pub open spec fn spec_build_cost(kind: TowerKind) -> u32 {
    match kind {
        TowerKind::Basic => 10,
    }
}

/// A tower's range in cells never shrinks as tiles are split into more cells.
pub proof fn lemma_range_in_cells_monotonic(kind: TowerKind, fewer: u32, more: u32)
    requires
        fewer <= more,
    ensures
        spec_range_in_cells(kind, fewer as int) <= spec_range_in_cells(kind, more as int),
{
    assert(spec_range_in_tiles(kind) * fewer <= spec_range_in_tiles(kind) * more) by (nonlinear_arith)
        requires
            fewer <= more,
            spec_range_in_tiles(kind) >= 0,
    ;
}

impl TowerKind {
    /// Returns the tower's targeting range measured in whole tiles.
    pub fn range_in_tiles(self) -> (r: u32)
        ensures
            r == spec_range_in_tiles(self),
    {
        match self {
            TowerKind::Basic => 4,
        }
    }

    /// Converts the tower's targeting range into whole cell units; a zero
    /// configuration yields a zero radius.
    pub fn range_in_cells(self, cells_per_tile: u32) -> (r: u32)
        ensures
            r == spec_range_in_cells(self, cells_per_tile as int),
    {
        if cells_per_tile == 0 {
            return 0;
        }
        let tiles = self.range_in_tiles() as u64;
        let scaled: u64 = tiles * cells_per_tile as u64;
        if scaled > u32::MAX as u64 {
            u32::MAX
        } else {
            scaled as u32
        }
    }

    /// Converts the tower's targeting range into whole cell units for a
    /// configuration that is known to be positive.
    pub fn range_in_cells_nz(self, cells_per_tile: NonZeroU32) -> (r: u32)
        ensures
            r == spec_range_in_cells(self, cells_per_tile.spec_get() as int),
    {
        self.range_in_cells(cells_per_tile.get())
    }

    /// Cooldown between successive shots measured in milliseconds.
    pub fn fire_cooldown_ms(self) -> (r: u32)
        ensures
            r == spec_fire_cooldown_ms(self),
    {
        match self {
            TowerKind::Basic => 1_000,
        }
    }

    /// Damage dealt by a projectile fired by this tower kind.
    pub fn projectile_damage(self) -> (d: Damage)
        ensures
            d.0 == spec_projectile_damage(self),
    {
        match self {
            TowerKind::Basic => Damage(1),
        }
    }

    /// Time in milliseconds for a projectile to traverse the tower's maximum range.
    pub fn projectile_travel_time_ms(self) -> (r: u32)
        ensures
            r == spec_projectile_travel_time_ms(self),
    {
        match self {
            TowerKind::Basic => 1_000,
        }
    }

    /// Gold required to construct a tower of this kind.
    pub fn build_cost(self) -> (g: Gold)
        ensures
            g.0 == spec_build_cost(self),
    {
        match self {
            TowerKind::Basic => Gold(10),
        }
    }
}

} // verus!
