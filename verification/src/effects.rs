//! Progression effects: the reward-driven mutations applied between rounds.
//! A speed boost raises a team's cumulative speed modifier, a squad grant
//! fills a random open slot of the acting team (or is dropped when none is
//! open), and grid growth delegates to the slot registry.

use vstd::prelude::*;
use crate::ai::SPEED_MOD_LIMIT;
use crate::formation::rand_formation;
use crate::items::ItemEffect;
use crate::layout::{count_open, count_open_to, is_open_slot, lemma_count_open_members, lemma_count_open_update, mk_slot, Slot, SlotRegistry, GRID_LIMIT};
use crate::rng::rand_below;
use crate::squad::{SquadBundle, MAX_SQUAD_DESC_COUNT};
use crate::team::Team;
use crate::units::UnitType;

verus! {

/// Squad size modifiers, in percent, are capped so a modified squad still
/// fits under the spawn cap.
pub const SIZE_MOD_LIMIT: u64 = 10000;

/// A team-wide movement speed modifier, in percent; movement multiplies
/// displacement by it.
#[derive(Clone, Copy, Debug, PartialEq, Eq, Structural)]
pub struct SpeedModifier(pub u64);

impl Default for SpeedModifier {
    fn default() -> (r: Self)
        ensures
            r == SpeedModifier(100),
    {
        SpeedModifier(100)
    }
}

/// A team-wide squad size modifier, in percent; the spawner scales squad
/// counts by it, truncating.
#[derive(Clone, Copy, Debug, PartialEq, Eq, Structural)]
pub struct SquadSizeModifier(pub u64);

impl Default for SquadSizeModifier {
    fn default() -> (r: Self)
        ensures
            r == SquadSizeModifier(100),
    {
        SquadSizeModifier(100)
    }
}

/// Adds a speed delta (in percent) to a modifier, saturating at the machine
/// cap.
pub fn add_movement_speed(m: &mut SpeedModifier, delta_pct: u64)
    requires
        old(m).0 <= SPEED_MOD_LIMIT,
    ensures
        final(m).0 == if old(m).0 + delta_pct <= SPEED_MOD_LIMIT {
            old(m).0 + delta_pct
        } else {
            SPEED_MOD_LIMIT as int
        },
        final(m).0 <= SPEED_MOD_LIMIT,
{
    if delta_pct <= SPEED_MOD_LIMIT - m.0 {
        m.0 = m.0 + delta_pct;
    } else {
        m.0 = SPEED_MOD_LIMIT;
    }
}

/// Multiplies a squad size modifier by a percentage, truncating, saturating
/// at the machine cap.
pub fn apply_squad_size_modifier(m: &mut SquadSizeModifier, multiplier_pct: u64)
    requires
        old(m).0 <= SIZE_MOD_LIMIT,
    ensures
        final(m).0 == if old(m).0 * multiplier_pct / 100 <= SIZE_MOD_LIMIT {
            old(m).0 * multiplier_pct / 100
        } else {
            SIZE_MOD_LIMIT as int
        },
        final(m).0 <= SIZE_MOD_LIMIT,
{
    proof {
        assert(0 <= (m.0 as int) * (multiplier_pct as int) <= 10000 * 0xffff_ffff_ffff_ffffint)
            by (nonlinear_arith)
            requires
                0 <= m.0 as int <= 10000,
                0 <= multiplier_pct as int <= 0xffff_ffff_ffff_ffffint,
        ;
        vstd::arithmetic::div_mod::lemma_div_pos_is_pos(
            (m.0 as int) * (multiplier_pct as int),
            100,
        );
    }
    let wide: u128 = (m.0 as u128) * (multiplier_pct as u128) / 100;
    if wide <= SIZE_MOD_LIMIT as u128 {
        m.0 = wide as u64;
    } else {
        m.0 = SIZE_MOD_LIMIT;
    }
}

/// Counts the open slots of `team`.
pub fn count_open_slots(reg: &SlotRegistry, team: Team) -> (r: usize)
    ensures
        r as int == count_open(reg.slots@, team),
{
    let mut count: usize = 0;
    let mut i: usize = 0;
    while i < reg.slots.len()
        invariant
            0 <= i <= reg.slots@.len(),
            count as int == count_open_to(reg.slots@, team, i as int),
            count <= i,
        decreases reg.slots@.len() - i,
    {
        let open = match reg.slots[i].squad {
            None => true,
            Some(_) => false,
        };
        if open && reg.slots[i].team == team {
            count = count + 1;
        }
        i = i + 1;
    }
    count
}


/// Grants a squad to the acting team: picks one of its open slots uniformly
/// at random and assigns the descriptor there with a freshly drawn random
/// formation. When the team has no open slot, the grant is dropped and
/// `false` is returned so the caller can surface the warning.
pub fn add_squad(reg: &mut SlotRegistry, team: Team, squad: SquadBundle) -> (ok: bool)
    requires
        old(reg).wf(),
        squad.count <= MAX_SQUAD_DESC_COUNT,
    ensures
        final(reg).wf(),
        final(reg).player == old(reg).player,
        final(reg).enemy == old(reg).enemy,
        final(reg).slots@.len() == old(reg).slots@.len(),
        !ok ==> final(reg).slots@ == old(reg).slots@ && count_open(old(reg).slots@, team) == 0,
        ok ==> count_open(old(reg).slots@, team) > 0,
        ok ==> count_open(final(reg).slots@, team) == count_open(old(reg).slots@, team) - 1,
        count_open(final(reg).slots@, team.opponent_spec()) == count_open(
            old(reg).slots@,
            team.opponent_spec(),
        ),
        ok ==> exists|i: int|
            0 <= i < old(reg).slots@.len() && is_open_slot(#[trigger] old(reg).slots@[i], team)
                && final(reg).slots@ == old(reg).slots@.update(
                i,
                Slot {
                    squad: Some(
                        SquadBundle {
                            count: squad.count,
                            formation: final(reg).slots@[i].squad.unwrap().formation,
                            unit: squad.unit,
                        },
                    ),
                    ..old(reg).slots@[i]
                },
            ),
{
    let mut open: Vec<usize> = Vec::new();
    let mut i: usize = 0;
    while i < reg.slots.len()
        invariant
            reg.wf(),
            0 <= i <= reg.slots@.len(),
            open@.len() == count_open_to(reg.slots@, team, i as int),
            forall|k: int|
                0 <= k < open@.len() ==> (#[trigger] open@[k] as int) < i as int && is_open_slot(
                    reg.slots@[open@[k] as int],
                    team,
                ),
        decreases reg.slots@.len() - i,
    {
        let is_open = match reg.slots[i].squad {
            None => true,
            Some(_) => false,
        };
        if is_open && reg.slots[i].team == team {
            open.push(i);
        }
        i = i + 1;
    }

    if open.len() == 0 {
        proof {
            lemma_count_open_members(reg.slots@, team, reg.slots@.len() as int);
        }
        return false;
    }

    let pick = open[rand_below(open.len())];
    let formation = rand_formation();
    let slot = reg.slots[pick];
    let updated = Slot {
        squad: Some(SquadBundle { count: squad.count, formation, unit: squad.unit }),
        ..slot
    };
    reg.slots[pick] = updated;
    proof {
        assert(is_open_slot(old(reg).slots@[pick as int], team));
        lemma_count_open_update(
            old(reg).slots@,
            team,
            pick as int,
            updated,
            old(reg).slots@.len() as int,
        );
        assert(final(reg).slots@ == old(reg).slots@.update(
            pick as int,
            Slot {
                squad: Some(
                    SquadBundle { count: squad.count, formation, unit: squad.unit },
                ),
                ..old(reg).slots@[pick as int]
            },
        ));
        assert forall|k: int| 0 <= k < reg.slots@.len() implies crate::layout::wf_slot(
            #[trigger] reg.slots@[k],
        ) && reg.slots@[k].row <= reg.unlocked_spec(reg.slots@[k].team).rows
            && reg.slots@[k].column <= reg.unlocked_spec(reg.slots@[k].team).columns by {
            if k != pick as int {
                assert(reg.slots@[k] == old(reg).slots@[k]);
            }
        }
    }
    true
}

/// The relation one applied item effect leaves between the before and
/// after states of the registry and the four team modifiers; `ok` says
/// whether the effect took hold. This is the full per-kind statement that
/// `apply_effect` guarantees and that the round-lifecycle contracts cite.
pub open spec fn effect_applied(
    effect: ItemEffect,
    team: Team,
    reg0: SlotRegistry,
    reg1: SlotRegistry,
    ps0: SpeedModifier,
    ps1: SpeedModifier,
    es0: SpeedModifier,
    es1: SpeedModifier,
    pz0: SquadSizeModifier,
    pz1: SquadSizeModifier,
    ez0: SquadSizeModifier,
    ez1: SquadSizeModifier,
    ok: bool,
) -> bool {
    // Each effect touches only its own piece of state.
    &&& !(effect matches ItemEffect::AddMovementSpeed(_)) ==> ps1 == ps0 && es1 == es0
    &&& !(effect matches ItemEffect::SquadSizeMultiplier { .. }) ==> pz1 == pz0 && ez1 == ez0
    &&& (effect matches ItemEffect::AddMovementSpeed(_) || effect
        matches ItemEffect::SquadSizeMultiplier { .. }) ==> reg1 == reg0 && ok
    // Speed boost: the acting team's modifier grows by the delta
    // (saturating); the other team's is untouched.
    &&& effect matches ItemEffect::AddMovementSpeed(d) ==> {
        let acting = if team == Team::Player {
            ps1
        } else {
            es1
        };
        let acting_old = if team == Team::Player {
            ps0
        } else {
            es0
        };
        let other = if team == Team::Player {
            es1
        } else {
            ps1
        };
        let other_old = if team == Team::Player {
            es0
        } else {
            ps0
        };
        &&& acting.0 == if acting_old.0 + d <= SPEED_MOD_LIMIT {
            acting_old.0 + d
        } else {
            SPEED_MOD_LIMIT as int
        }
        &&& other == other_old
    }
    // Knight squad size multiplier: the acting team's size modifier is
    // scaled; any other unit type leaves everything untouched.
    &&& effect matches ItemEffect::SquadSizeMultiplier { multiplier_pct, unit } ==> {
        let acting = if team == Team::Player {
            pz1
        } else {
            ez1
        };
        let acting_old = if team == Team::Player {
            pz0
        } else {
            ez0
        };
        let other = if team == Team::Player {
            ez1
        } else {
            pz1
        };
        let other_old = if team == Team::Player {
            ez0
        } else {
            pz0
        };
        &&& unit == UnitType::Knight ==> acting.0 == (if acting_old.0 * multiplier_pct / 100
            <= SIZE_MOD_LIMIT {
            acting_old.0 * multiplier_pct / 100
        } else {
            SIZE_MOD_LIMIT as int
        })
        &&& unit != UnitType::Knight ==> acting == acting_old
        &&& other == other_old
    }
    // Column growth: under the cap, one column is unlocked and one new
    // empty slot appears per unlocked row, by the shared formula.
    &&& effect matches ItemEffect::AddColumn ==> (if reg0.unlocked_spec(team).columns
        < GRID_LIMIT {
        &&& ok
        &&& reg1.unlocked_spec(team).columns == reg0.unlocked_spec(team).columns + 1
        &&& reg1.unlocked_spec(team).rows == reg0.unlocked_spec(team).rows
        &&& reg1.unlocked_spec(team.opponent_spec()) == reg0.unlocked_spec(team.opponent_spec())
        &&& reg1.slots@ == reg0.slots@ + Seq::new(
            reg0.unlocked_spec(team).rows as nat,
            |r: int| mk_slot(team, r + 1, reg0.unlocked_spec(team).columns + 1),
        )
    } else {
        !ok && reg1 == reg0
    })
    // Row growth, symmetrically.
    &&& effect matches ItemEffect::AddRow ==> (if reg0.unlocked_spec(team).rows < GRID_LIMIT {
        &&& ok
        &&& reg1.unlocked_spec(team).rows == reg0.unlocked_spec(team).rows + 1
        &&& reg1.unlocked_spec(team).columns == reg0.unlocked_spec(team).columns
        &&& reg1.unlocked_spec(team.opponent_spec()) == reg0.unlocked_spec(team.opponent_spec())
        &&& reg1.slots@ == reg0.slots@ + Seq::new(
            reg0.unlocked_spec(team).columns as nat,
            |c: int| mk_slot(team, reg0.unlocked_spec(team).rows + 1, c + 1),
        )
    } else {
        !ok && reg1 == reg0
    })
    // Squad grant: a random open slot of the acting team is filled, or the
    // grant is dropped when none is open.
    &&& effect matches ItemEffect::AddSquad(s) ==> {
        &&& reg1.player == reg0.player
        &&& reg1.enemy == reg0.enemy
        &&& reg1.slots@.len() == reg0.slots@.len()
        &&& !ok ==> reg1.slots@ == reg0.slots@ && count_open(reg0.slots@, team) == 0
        &&& ok ==> count_open(reg0.slots@, team) > 0
        &&& ok ==> count_open(reg1.slots@, team) == count_open(reg0.slots@, team) - 1
        &&& count_open(reg1.slots@, team.opponent_spec()) == count_open(
            reg0.slots@,
            team.opponent_spec(),
        )
        &&& ok ==> exists|i: int|
            0 <= i < reg0.slots@.len() && is_open_slot(#[trigger] reg0.slots@[i], team)
                && reg1.slots@ == reg0.slots@.update(
                i,
                Slot {
                    squad: Some(
                        SquadBundle {
                            count: s.count,
                            formation: reg1.slots@[i].squad.unwrap().formation,
                            unit: s.unit,
                        },
                    ),
                    ..reg0.slots@[i]
                },
            )
    }
}

/// Applies one item effect for the acting team. Speed boosts raise the
/// team's speed modifier, squad grants fill a random open slot, grid growth
/// adds a row or column (while the grid is under its machine cap), and a
/// knight size multiplier scales the team's squad size modifier. Returns
/// whether the effect took hold; a squad grant with no open slot, or grid
/// growth at the cap, is dropped.
pub fn apply_effect(
    effect: &ItemEffect,
    team: Team,
    reg: &mut SlotRegistry,
    player_speed: &mut SpeedModifier,
    enemy_speed: &mut SpeedModifier,
    player_size: &mut SquadSizeModifier,
    enemy_size: &mut SquadSizeModifier,
) -> (ok: bool)
    requires
        old(reg).wf(),
        old(player_speed).0 <= SPEED_MOD_LIMIT,
        old(enemy_speed).0 <= SPEED_MOD_LIMIT,
        old(player_size).0 <= SIZE_MOD_LIMIT,
        old(enemy_size).0 <= SIZE_MOD_LIMIT,
        (*effect) matches ItemEffect::AddSquad(s) ==> s.count <= MAX_SQUAD_DESC_COUNT,
    ensures
        final(reg).wf(),
        final(player_speed).0 <= SPEED_MOD_LIMIT,
        final(enemy_speed).0 <= SPEED_MOD_LIMIT,
        final(player_size).0 <= SIZE_MOD_LIMIT,
        final(enemy_size).0 <= SIZE_MOD_LIMIT,
        effect_applied(
            *effect,
            team,
            *old(reg),
            *final(reg),
            *old(player_speed),
            *final(player_speed),
            *old(enemy_speed),
            *final(enemy_speed),
            *old(player_size),
            *final(player_size),
            *old(enemy_size),
            *final(enemy_size),
            ok,
        ),
{
    match effect {
        ItemEffect::AddMovementSpeed(delta) => {
            match team {
                Team::Player => add_movement_speed(player_speed, *delta),
                Team::Enemy => add_movement_speed(enemy_speed, *delta),
            }
            true
        },
        ItemEffect::SquadSizeMultiplier { multiplier_pct, unit } => {
            match unit {
                UnitType::Knight => {
                    match team {
                        Team::Player => apply_squad_size_modifier(player_size, *multiplier_pct),
                        Team::Enemy => apply_squad_size_modifier(enemy_size, *multiplier_pct),
                    }
                },
                UnitType::Archer => (),
            }
            true
        },
        ItemEffect::AddColumn => {
            if reg.unlocked(team).columns < GRID_LIMIT {
                reg.add_column(team);
                true
            } else {
                false
            }
        },
        ItemEffect::AddRow => {
            if reg.unlocked(team).rows < GRID_LIMIT {
                reg.add_row(team);
                true
            } else {
                false
            }
        },
        ItemEffect::AddSquad(squad) => add_squad(reg, team, *squad),
    }
}

} // verus!
