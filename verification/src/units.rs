//! Units: the individual actors of a battle. Each carries its team, its
//! fixed-point position, combat stats copied from its type's preset at spawn
//! time, its current target and movement goal, and an alive flag that drops
//! exactly when its health does.

use vstd::prelude::*;
use crate::team::Team;

verus! {

/// Positions (and ranges) are bounded so every distance computation below
/// fits in the machine integers.
pub const POS_LIMIT: i64 = 0x4000_0000;

/// Health, damage and movement speed are bounded for the same reason.
pub const STAT_LIMIT: i64 = 0x4000_0000;

/// Cooldowns and timestamps, in milliseconds, are bounded so sums of two of
/// them fit in a `u64`.
pub const TIME_LIMIT: u64 = 0x1000_0000_0000_0000;

/// The kind of a unit, indexing its stat preset.
#[derive(Clone, Copy, Debug, PartialEq, Eq, Structural)]
pub enum UnitType {
    Archer,
    Knight,
}

impl Default for UnitType {
    fn default() -> (r: Self)
        ensures
            r == UnitType::Knight,
    {
        UnitType::Knight
    }
}

/// How a unit approaches its target: straight onto it, or only until the
/// target is within attack range.
#[derive(Clone, Copy, Debug, PartialEq, Eq, Structural)]
pub enum MovementStyle {
    Direct,
    WithinRange,
}

impl Default for MovementStyle {
    fn default() -> (r: Self)
        ensures
            r == MovementStyle::Direct,
    {
        MovementStyle::Direct
    }
}

/// A unit's current movement goal, set by targeting each tick: the stored
/// coordinates are a snapshot of the chosen enemy's position.
#[derive(Clone, Copy, Debug, PartialEq, Eq, Structural)]
pub enum Movement {
    Direct { x: i64, y: i64 },
    WithinRange { x: i64, y: i64, range: i64 },
}

/// The immutable stat preset of a unit type, copied onto each unit at spawn.
#[derive(Clone, Copy, Debug, PartialEq, Eq, Structural)]
pub struct UnitStats {
    pub attack_cooldown_ms: u64,
    pub damage: i64,
    pub health: i64,
    pub movement_speed: i64,
    pub movement_style: MovementStyle,
    pub range: i64,
}

impl UnitStats {
    /// Every preset stays inside the machine-limit bounds.
    pub open spec fn bounded(self) -> bool {
        &&& 0 <= self.damage <= STAT_LIMIT
        &&& 0 < self.health <= STAT_LIMIT
        &&& 0 <= self.movement_speed <= STAT_LIMIT
        &&& 0 <= self.range <= POS_LIMIT
        &&& self.attack_cooldown_ms <= TIME_LIMIT
    }

    /// The knight preset: a slow, sturdy melee fighter.
    pub fn knight() -> (r: UnitStats)
        ensures
            r == UnitStats::knight_spec(),
            r.bounded(),
    {
        UnitStats {
            attack_cooldown_ms: 1000,
            damage: 20,
            health: 100,
            movement_speed: 360,
            movement_style: MovementStyle::WithinRange,
            range: 216,
        }
    }

    pub open spec fn knight_spec() -> UnitStats {
        UnitStats {
            attack_cooldown_ms: 1000,
            damage: 20,
            health: 100,
            movement_speed: 360,
            movement_style: MovementStyle::WithinRange,
            range: 216,
        }
    }

    /// The archer preset: fragile, slower attacks, long reach.
    pub fn archer() -> (r: UnitStats)
        ensures
            r == UnitStats::archer_spec(),
            r.bounded(),
    {
        UnitStats {
            attack_cooldown_ms: 2000,
            damage: 5,
            health: 50,
            movement_speed: 240,
            movement_style: MovementStyle::WithinRange,
            range: 1200,
        }
    }

    pub open spec fn archer_spec() -> UnitStats {
        UnitStats {
            attack_cooldown_ms: 2000,
            damage: 5,
            health: 50,
            movement_speed: 240,
            movement_style: MovementStyle::WithinRange,
            range: 1200,
        }
    }
}

impl UnitType {
    /// The stat preset for this unit type.
    pub fn stats(&self) -> (r: UnitStats)
        ensures
            r == self.stats_spec(),
            r.bounded(),
    {
        match self {
            UnitType::Knight => UnitStats::knight(),
            UnitType::Archer => UnitStats::archer(),
        }
    }

    pub open spec fn stats_spec(self) -> UnitStats {
        match self {
            UnitType::Knight => UnitStats::knight_spec(),
            UnitType::Archer => UnitStats::archer_spec(),
        }
    }

    /// The grid spacing between squad members of this type, in coordinate
    /// units per formation cell.
    pub fn spacing(&self) -> (r: (i64, i64))
        ensures
            r == self.spacing_spec(),
    {
        match self {
            UnitType::Knight => (240, 240),
            UnitType::Archer => (240, 240),
        }
    }

    pub open spec fn spacing_spec(self) -> (i64, i64) {
        match self {
            UnitType::Knight => (240i64, 240i64),
            UnitType::Archer => (240i64, 240i64),
        }
    }
}

/// One actor on the battlefield.
#[derive(Clone, Copy, Debug, PartialEq, Eq, Structural)]
pub struct Unit {
    pub team: Team,
    pub unit_type: UnitType,
    pub x: i64,
    pub y: i64,
    pub health: i64,
    pub damage: i64,
    pub range: i64,
    pub attack_cooldown_ms: u64,
    /// Zero until the unit's first attack.
    pub last_attack_ms: u64,
    pub movement_speed: i64,
    pub movement_style: MovementStyle,
    /// Index of the current attack target among the battle's units.
    pub target: Option<usize>,
    pub movement: Option<Movement>,
    pub alive: bool,
}

/// A unit is well formed when its numbers respect the machine-limit bounds,
/// its alive flag agrees with its health, and its target (if any) points
/// into a unit table of length `n`.
pub open spec fn wf_unit(u: Unit, n: int) -> bool {
    &&& -STAT_LIMIT <= u.health <= STAT_LIMIT
    &&& 0 <= u.damage <= STAT_LIMIT
    &&& 0 <= u.range <= POS_LIMIT
    &&& 0 <= u.movement_speed <= STAT_LIMIT
    &&& u.attack_cooldown_ms <= TIME_LIMIT
    &&& u.last_attack_ms <= TIME_LIMIT
    &&& -POS_LIMIT <= u.x <= POS_LIMIT
    &&& -POS_LIMIT <= u.y <= POS_LIMIT
    &&& (u.alive <==> u.health > 0)
    &&& match u.target {
        Some(t) => t < n,
        None => true,
    }
    &&& match u.movement {
        Some(Movement::Direct { x, y }) => -POS_LIMIT <= x <= POS_LIMIT && -POS_LIMIT <= y
            <= POS_LIMIT,
        Some(Movement::WithinRange { x, y, range }) => -POS_LIMIT <= x <= POS_LIMIT && -POS_LIMIT
            <= y <= POS_LIMIT && 0 <= range <= POS_LIMIT,
        None => true,
    }
}

/// The whole unit table is well formed.
pub open spec fn wf_units(units: Seq<Unit>) -> bool {
    forall|i: int| 0 <= i < units.len() ==> wf_unit(#[trigger] units[i], units.len() as int)
}

/// Whether unit `i` of `units` is a living member of `team`.
pub open spec fn is_living_member(units: Seq<Unit>, team: Team, i: int) -> bool {
    &&& 0 <= i < units.len()
    &&& units[i].alive
    &&& units[i].team == team
}

/// How many of the first `n` units are living members of `team`.
pub open spec fn count_living_to(units: Seq<Unit>, team: Team, n: int) -> int
    decreases n,
{
    if n <= 0 {
        0
    } else {
        count_living_to(units, team, n - 1) + if is_living_member(units, team, n - 1) {
            1int
        } else {
            0int
        }
    }
}

/// The number of living units of `team`.
pub open spec fn count_living(units: Seq<Unit>, team: Team) -> int {
    count_living_to(units, team, units.len() as int)
}

/// Counts the living units of `team`.
pub fn living_units(units: &Vec<Unit>, team: Team) -> (r: usize)
    ensures
        r as int == count_living(units@, team),
{
    let mut count: usize = 0;
    let mut i: usize = 0;
    while i < units.len()
        invariant
            0 <= i <= units@.len(),
            count as int == count_living_to(units@, team, i as int),
            count <= i,
        decreases units@.len() - i,
    {
        if units[i].alive && units[i].team == team {
            count = count + 1;
        }
        i = i + 1;
    }
    count
}

/// Unit tables identical over a prefix have the same living count over it.
proof fn lemma_count_living_prefix(s1: Seq<Unit>, s2: Seq<Unit>, team: Team, n: int)
    requires
        0 <= n <= s1.len(),
        n <= s2.len(),
        forall|j: int| 0 <= j < n ==> s1[j] == s2[j],
    ensures
        count_living_to(s1, team, n) == count_living_to(s2, team, n),
    decreases n,
{
    if n > 0 {
        lemma_count_living_prefix(s1, s2, team, n - 1);
    }
}

/// Living counts add up over concatenation.
pub proof fn lemma_count_living_append(a: Seq<Unit>, b: Seq<Unit>, team: Team)
    ensures
        count_living(a + b, team) == count_living(a, team) + count_living(b, team),
    decreases b.len(),
{
    if b.len() == 0 {
        assert(a + b =~= a);
        lemma_count_living_prefix(a + b, a, team, a.len() as int);
    } else {
        lemma_count_living_append(a, b.drop_last(), team);
        let s = a + b;
        let s1 = a + b.drop_last();
        assert(forall|j: int| 0 <= j < s.len() - 1 ==> s[j] == s1[j]);
        lemma_count_living_prefix(s, s1, team, s.len() as int - 1);
        lemma_count_living_prefix(b, b.drop_last(), team, b.len() as int - 1);
        assert(s[s.len() - 1] == b[b.len() - 1]);
    }
}

/// A block of living units that all belong to `team` counts fully for it,
/// and not at all for the other side.
pub proof fn lemma_count_living_uniform(b: Seq<Unit>, team: Team, n: int)
    requires
        0 <= n <= b.len(),
        forall|j: int| 0 <= j < b.len() ==> (#[trigger] b[j]).alive && b[j].team == team,
    ensures
        count_living_to(b, team, n) == n,
        count_living_to(b, team.opponent_spec(), n) == 0,
    decreases n,
{
    if n > 0 {
        lemma_count_living_uniform(b, team, n - 1);
        assert(is_living_member(b, team, n - 1));
        assert(!is_living_member(b, team.opponent_spec(), n - 1));
    }
}

/// A positive count means some living member exists, and a zero count means
/// none does.
pub proof fn lemma_count_living_members(units: Seq<Unit>, team: Team, n: int)
    requires
        0 <= n <= units.len(),
    ensures
        count_living_to(units, team, n) > 0 <==> exists|i: int| i < n && is_living_member(
            units,
            team,
            i,
        ),
        count_living_to(units, team, n) >= 0,
    decreases n,
{
    if n > 0 {
        lemma_count_living_members(units, team, n - 1);
    }
}

} // verus!
