//! Squad descriptors: a unit type, a count and a formation, owned by one
//! battlefield slot, and the spawner that expands a descriptor into units.

use vstd::prelude::*;
use crate::formation::{formation_offset, Formation};
use crate::rng::rand_between;
use crate::team::Team;
use crate::units::{wf_unit, Unit, UnitType};

verus! {

/// Placement jitter, in coordinate units: each spawned unit is shifted by
/// up to this much in each axis so squad members do not overlap exactly.
pub const SPAWN_JITTER: i64 = 24;

/// Spawned squads are capped in size so every spawned position stays inside
/// the unit position bounds.
pub const MAX_SQUAD_COUNT: usize = 0x10000;

/// Squad descriptors are capped so that even a maximal size modifier keeps
/// the effective count under the spawn cap.
pub const MAX_SQUAD_DESC_COUNT: usize = 0x200;

/// Slots handed to the spawner lie well inside the arena.
pub const SLOT_POS_LIMIT: i64 = 0x100_0000;

/// A squad descriptor: consumed by the spawner into concrete units.
#[derive(Clone, Copy, Debug, PartialEq, Eq, Structural)]
pub struct SquadBundle {
    pub count: usize,
    pub formation: Formation,
    pub unit: UnitType,
}

impl Default for SquadBundle {
    fn default() -> (r: Self)
        ensures
            r == (SquadBundle { count: 0, formation: Formation::Box, unit: UnitType::Knight }),
    {
        SquadBundle { count: 0, formation: Formation::Box, unit: UnitType::Knight }
    }
}

/// The effective size of a squad after the team's size modifier, a
/// percentage, is applied; fractions truncate toward zero.
pub open spec fn modified_count(count: int, modifier_pct: int) -> int {
    count * modifier_pct / 100
}

/// Applies a percentage size modifier to a squad's unit count, truncating
/// toward zero.
pub fn apply_size_modifier(count: usize, modifier_pct: usize) -> (r: usize)
    requires
        count <= 0x100_0000,
        modifier_pct <= 10000,
    ensures
        r as int == modified_count(count as int, modifier_pct as int),
        r <= count as int * 100,
{
    proof {
        assert(count as int * modifier_pct as int <= count as int * 10000) by (nonlinear_arith)
            requires
                modifier_pct <= 10000,
                0 <= count,
        ;
        assert(0 <= count as int * modifier_pct as int) by (nonlinear_arith)
            requires
                0 <= count,
                0 <= modifier_pct,
        ;
        vstd::arithmetic::div_mod::lemma_div_is_ordered(
            count as int * modifier_pct as int,
            count as int * 10000,
            100,
        );
        assert(count as int * 10000 / 100 == count as int * 100) by (nonlinear_arith);
        assert(count as int * 100 <= 0x100_0000 * 100) by (nonlinear_arith)
            requires
                count <= 0x100_0000,
        ;
        vstd::arithmetic::div_mod::lemma_div_pos_is_pos(
            count as int * modifier_pct as int,
            100,
        );
    }
    let wide: u64 = (count as u64) * (modifier_pct as u64);
    (wide / 100) as usize
}

/// Where a freshly spawned unit lands: on the slot, displaced by the
/// spacing-scaled formation offset (mirrored in x for the Player team),
/// give or take the jitter.
pub open spec fn spawned_near(
    u: Unit,
    team: Team,
    slot_x: int,
    slot_y: int,
    off: (int, int),
    spacing: (i64, i64),
) -> bool {
    let sx = off.0 * spacing.0;
    let sy = off.1 * spacing.1;
    let mx = if team == Team::Player {
        -sx
    } else {
        sx
    };
    let my = sy;
    &&& slot_x + mx - SPAWN_JITTER <= u.x <= slot_x + mx + SPAWN_JITTER
    &&& slot_y + my - SPAWN_JITTER <= u.y <= slot_y + my + SPAWN_JITTER
}

/// A freshly spawned unit: alive, untargeted, with its type's preset stats.
pub open spec fn fresh_unit(u: Unit, team: Team, unit_type: UnitType) -> bool {
    let stats = unit_type.stats_spec();
    &&& u.team == team
    &&& u.unit_type == unit_type
    &&& u.health == stats.health
    &&& u.damage == stats.damage
    &&& u.range == stats.range
    &&& u.attack_cooldown_ms == stats.attack_cooldown_ms
    &&& u.last_attack_ms == 0
    &&& u.movement_speed == stats.movement_speed
    &&& u.movement_style == stats.movement_style
    &&& u.target is None
    &&& u.movement is None
    &&& u.alive
}

/// Expands one squad into concrete units, appended to `units`: one unit per
/// formation offset, scaled by the type's spacing, jittered, and mirrored in
/// x for the Player team, with stats copied from the type's preset.
///
/// The count passed in is the descriptor's count after the team's size
/// modifier (see `apply_size_modifier`).
pub fn spawn_squad(
    units: &mut Vec<Unit>,
    team: Team,
    unit_type: UnitType,
    formation: &Formation,
    count: usize,
    slot_x: i64,
    slot_y: i64,
) -> (spawned: usize)
    requires
        count <= MAX_SQUAD_COUNT,
        -SLOT_POS_LIMIT <= slot_x <= SLOT_POS_LIMIT,
        -SLOT_POS_LIMIT <= slot_y <= SLOT_POS_LIMIT,
    ensures
        spawned == count,
        final(units)@.len() == old(units)@.len() + count as int,
        final(units)@.subrange(0, old(units)@.len() as int) == old(units)@,
        forall|i: int|
            old(units)@.len() <= i < final(units)@.len() ==> fresh_unit(
                #[trigger] final(units)@[i],
                team,
                unit_type,
            ),
        forall|i: int|
            old(units)@.len() <= i < final(units)@.len() ==> spawned_near(
                #[trigger] final(units)@[i],
                team,
                slot_x as int,
                slot_y as int,
                formation_offset(*formation, count as int, i - old(units)@.len()),
                unit_type.spacing_spec(),
            ),
        forall|i: int|
            old(units)@.len() <= i < final(units)@.len() ==> wf_unit(
                #[trigger] final(units)@[i],
                final(units)@.len() as int,
            ),
{
    let offsets = formation.coords(count);
    let spacing = unit_type.spacing();
    let stats = unit_type.stats();

    let ghost base = units@.len() as int;
    let mut i: usize = 0;
    while i < count
        invariant
            0 <= i <= count,
            count <= MAX_SQUAD_COUNT,
            -SLOT_POS_LIMIT <= slot_x <= SLOT_POS_LIMIT,
            -SLOT_POS_LIMIT <= slot_y <= SLOT_POS_LIMIT,
            offsets@.len() == count as int,
            forall|j: int|
                0 <= j < count as int ==> #[trigger] offsets@[j] == (
                    formation_offset(*formation, count as int, j).0 as i64,
                    formation_offset(*formation, count as int, j).1 as i64,
                ),
            forall|j: int|
                0 <= j < count as int ==> 0 <= (#[trigger] offsets@[j]).0 <= j && 0
                    <= offsets@[j].1 <= j,
            spacing == unit_type.spacing_spec(),
            stats == unit_type.stats_spec(),
            stats.bounded(),
            units@.len() == base + i as int,
            units@.subrange(0, base) == old(units)@,
            base == old(units)@.len() as int,
            forall|j: int|
                base <= j < units@.len() ==> fresh_unit(#[trigger] units@[j], team, unit_type),
            forall|j: int|
                base <= j < units@.len() ==> spawned_near(
                    #[trigger] units@[j],
                    team,
                    slot_x as int,
                    slot_y as int,
                    formation_offset(*formation, count as int, j - base),
                    unit_type.spacing_spec(),
                ),
            forall|j: int| base <= j < units@.len() ==> wf_fresh_bounds(#[trigger] units@[j]),
        decreases count - i,
    {
        let (ox, oy) = offsets[i];
        proof {
            crate::formation::lemma_formation_offset_bounds(*formation, count as int, i as int);
            assert(0 <= ox <= i as int && 0 <= oy <= i as int);
            assert(ox as int == formation_offset(*formation, count as int, i as int).0);
            assert(oy as int == formation_offset(*formation, count as int, i as int).1);
            assert(spacing.0 == 240 && spacing.1 == 240);
            assert(ox as int * 240 <= 0x10000 * 240) by (nonlinear_arith)
                requires
                    0 <= ox as int <= 0x10000,
            ;
            assert(oy as int * 240 <= 0x10000 * 240) by (nonlinear_arith)
                requires
                    0 <= oy as int <= 0x10000,
            ;
            assert(0 <= ox as int * 240 && 0 <= oy as int * 240) by (nonlinear_arith)
                requires
                    0 <= ox,
                    0 <= oy,
            ;
        }
        let sx = ox * spacing.0;
        let sy = oy * spacing.1;

        let jx = rand_between(-SPAWN_JITTER, SPAWN_JITTER);
        let jy = rand_between(-SPAWN_JITTER, SPAWN_JITTER);

        let mut x = sx + jx;
        let y = sy + jy;

        if let Team::Player = team {
            x = -x;
        }

        let ghost pre = units@;
        let unit = Unit {
            team,
            unit_type,
            x: slot_x + x,
            y: slot_y + y,
            health: stats.health,
            damage: stats.damage,
            range: stats.range,
            attack_cooldown_ms: stats.attack_cooldown_ms,
            last_attack_ms: 0,
            movement_speed: stats.movement_speed,
            movement_style: stats.movement_style,
            target: None,
            movement: None,
            alive: true,
        };
        units.push(unit);
        proof {
            assert(units@.subrange(0, base) =~= old(units)@);
            assert(spawned_near(
                unit,
                team,
                slot_x as int,
                slot_y as int,
                formation_offset(*formation, count as int, i as int),
                unit_type.spacing_spec(),
            ));
        }
        i = i + 1;
    }
    proof {
        assert forall|j: int| base <= j < units@.len() implies wf_unit(
            #[trigger] units@[j],
            units@.len() as int,
        ) by {
            assert(wf_fresh_bounds(units@[j]));
        }
    }
    count
}

/// The numeric bounds of a freshly spawned unit; its target is `None`, so
/// well-formedness does not depend on the final table length.
pub open spec fn wf_fresh_bounds(u: Unit) -> bool {
    wf_unit(u, 0) && u.target is None
}

} // verus!
