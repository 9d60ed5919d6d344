//! The round lifecycle: externally observable game states, the floor
//! counter that scales the self-upgrading enemy, and the `Game` value that
//! ties the slot registry, the unit table, the modifiers, the item
//! catalogue and the victory detector together.

use vstd::prelude::*;
use crate::ai::{
    attack, move_units, set_target, AttackEvent, DeathEvent, MAX_TICK_MS, SPEED_MOD_LIMIT,
};
use crate::choices::{set_item_choices, weighted_pool, ItemChoice, NumItemChoices};
use crate::effects::{
    add_squad, apply_effect, count_open_slots, effect_applied, SpeedModifier, SquadSizeModifier,
    SIZE_MOD_LIMIT,
};
use crate::formation::Formation;
use crate::items::{eligible, init_items, select_item, Item, ItemEffect};
use crate::layout::{SlotRegistry, INITIAL_COLUMNS, INITIAL_ROWS};
use crate::rng::rand_below;
use crate::squad::{
    apply_size_modifier, spawn_squad, SquadBundle, MAX_SQUAD_COUNT, MAX_SQUAD_DESC_COUNT,
};
use crate::team::Team;
use crate::units::{
    count_living, wf_unit, wf_units, Unit, UnitType, TIME_LIMIT,
};
use crate::victory::{detector_step, RoundOutcome, VictoryDetector};

verus! {

/// The externally observable lifecycle states.
#[derive(Clone, Copy, Debug, PartialEq, Eq, Structural)]
pub enum GameState {
    Menu,
    InitBattle,
    PreBattle,
    Battle,
    Victory,
    Defeat,
}

impl Default for GameState {
    fn default() -> (r: Self)
        ensures
            r == GameState::Menu,
    {
        GameState::Menu
    }
}

/// The floor counter: rises by one per round won, and scales the
/// self-upgrading enemy's squad sizes.
#[derive(Clone, Copy, Debug, PartialEq, Eq, Structural)]
pub struct Floor(pub usize);

impl Default for Floor {
    fn default() -> (r: Self)
        ensures
            r == Floor(0),
    {
        Floor(0)
    }
}

/// How many units the Player's starting squad holds.
pub const INITIAL_UNITS: usize = 10;

/// An item effect the game can always apply: squad grants respect the
/// descriptor size cap.
pub open spec fn wf_effect(e: ItemEffect) -> bool {
    match e {
        ItemEffect::AddSquad(s) => s.count <= MAX_SQUAD_DESC_COUNT,
        _ => true,
    }
}

/// How many units the squads on the first `n` slots expand into, after
/// each team's size modifier (in percent) is applied.
pub open spec fn spawn_total(
    slots: Seq<crate::layout::Slot>,
    player_pct: int,
    enemy_pct: int,
    n: int,
) -> int
    decreases n,
{
    if n <= 0 {
        0
    } else {
        spawn_total(slots, player_pct, enemy_pct, n - 1) + (match slots[n - 1].squad {
            Some(sq) => crate::squad::modified_count(
                sq.count as int,
                if slots[n - 1].team == Team::Player {
                    player_pct
                } else {
                    enemy_pct
                },
            ),
            None => 0,
        })
    }
}

/// How many units the squads of one `team` on the first `n` slots expand
/// into, after that team's size modifier is applied.
pub open spec fn team_spawn_total(
    slots: Seq<crate::layout::Slot>,
    team: Team,
    pct: int,
    n: int,
) -> int
    decreases n,
{
    if n <= 0 {
        0
    } else {
        team_spawn_total(slots, team, pct, n - 1) + (match slots[n - 1].squad {
            Some(sq) => if slots[n - 1].team == team {
                crate::squad::modified_count(sq.count as int, pct)
            } else {
                0
            },
            None => 0,
        })
    }
}

/// Spawn totals never shrink as more slots are taken in.
pub proof fn lemma_spawn_total_monotone(
    slots: Seq<crate::layout::Slot>,
    player_pct: int,
    enemy_pct: int,
    n1: int,
    n2: int,
)
    requires
        0 <= n1 <= n2,
        0 <= player_pct,
        0 <= enemy_pct,
    ensures
        0 <= spawn_total(slots, player_pct, enemy_pct, n1) <= spawn_total(
            slots,
            player_pct,
            enemy_pct,
            n2,
        ),
    decreases n2,
{
    if n1 < n2 || n2 > 0 {
        if n2 > 0 {
            lemma_spawn_total_monotone(slots, player_pct, enemy_pct, if n1 < n2 {
                n1
            } else {
                n1 - 1
            }, n2 - 1);
            match slots[n2 - 1].squad {
                Some(sq) => {
                    let pct = if slots[n2 - 1].team == Team::Player {
                        player_pct
                    } else {
                        enemy_pct
                    };
                    assert(0 <= sq.count as int * pct) by (nonlinear_arith)
                        requires
                            0 <= sq.count,
                            0 <= pct,
                    ;
                    vstd::arithmetic::div_mod::lemma_div_pos_is_pos(sq.count as int * pct, 100);
                },
                None => {},
            }
        }
    }
}

/// The units spawned for the squad on slot `j` sit as one contiguous block
/// in the unit table, starting at the spawn total of the earlier slots:
/// unit `kk` of the block is fresh for the slot's team and squad type, and
/// sits near the slot's position displaced by its formation offset.
pub open spec fn squad_block_spawned(
    units: Seq<Unit>,
    slots: Seq<crate::layout::Slot>,
    player_pct: int,
    enemy_pct: int,
    j: int,
) -> bool {
    match slots[j].squad {
        Some(sq) => {
            let team = slots[j].team;
            let pct = if team == Team::Player {
                player_pct
            } else {
                enemy_pct
            };
            let eff = crate::squad::modified_count(sq.count as int, pct);
            let base = spawn_total(slots, player_pct, enemy_pct, j);
            forall|kk: int|
                0 <= kk < eff ==> {
                    let u = #[trigger] units[base + kk];
                    &&& crate::squad::fresh_unit(u, team, sq.unit)
                    &&& crate::squad::spawned_near(
                        u,
                        team,
                        slots[j].x as int,
                        slots[j].y as int,
                        crate::formation::formation_offset(sq.formation, eff, kk),
                        sq.unit.spacing_spec(),
                    )
                }
        },
        None => true,
    }
}

/// A spawned block is untouched when the unit table only grows past it.
proof fn lemma_block_preserved(
    pre: Seq<Unit>,
    cur: Seq<Unit>,
    slots: Seq<crate::layout::Slot>,
    p_pct: int,
    e_pct: int,
    jj: int,
    j: int,
)
    requires
        0 <= jj < j <= slots.len(),
        0 <= p_pct,
        0 <= e_pct,
        squad_block_spawned(pre, slots, p_pct, e_pct, jj),
        pre.len() == spawn_total(slots, p_pct, e_pct, j),
        cur.len() >= pre.len(),
        forall|m: int| 0 <= m < pre.len() ==> cur[m] == pre[m],
    ensures
        squad_block_spawned(cur, slots, p_pct, e_pct, jj),
{
    match slots[jj].squad {
        Some(sq) => {
            let team = slots[jj].team;
            let pct = if team == Team::Player {
                p_pct
            } else {
                e_pct
            };
            let eff = crate::squad::modified_count(sq.count as int, pct);
            let bb = spawn_total(slots, p_pct, e_pct, jj);
            assert(spawn_total(slots, p_pct, e_pct, jj + 1) == bb + eff);
            lemma_spawn_total_monotone(slots, p_pct, e_pct, jj + 1, j);
            lemma_spawn_total_monotone(slots, p_pct, e_pct, jj, j);
            assert(0 <= sq.count as int * pct) by (nonlinear_arith)
                requires
                    0 <= sq.count,
                    0 <= pct,
            ;
            vstd::arithmetic::div_mod::lemma_div_pos_is_pos(sq.count as int * pct, 100);
            assert forall|kk: int| 0 <= kk < eff implies {
                let u = #[trigger] cur[bb + kk];
                &&& crate::squad::fresh_unit(u, team, sq.unit)
                &&& crate::squad::spawned_near(
                    u,
                    team,
                    slots[jj].x as int,
                    slots[jj].y as int,
                    crate::formation::formation_offset(sq.formation, eff, kk),
                    sq.unit.spacing_spec(),
                )
            } by {
                assert(bb + kk < pre.len());
                assert(cur[bb + kk] == pre[bb + kk]);
                assert(crate::squad::fresh_unit(pre[bb + kk], team, sq.unit)
                    && crate::squad::spawned_near(
                    pre[bb + kk],
                    team,
                    slots[jj].x as int,
                    slots[jj].y as int,
                    crate::formation::formation_offset(sq.formation, eff, kk),
                    sq.unit.spacing_spec(),
                ));
            }
        },
        None => {},
    }
}

/// Whether `u` is a fresh unit spawned from some squad-bearing slot of
/// `slots`: it carries that slot's team and the squad's unit type.
pub open spec fn unit_from_slots(u: Unit, slots: Seq<crate::layout::Slot>) -> bool {
    exists|j: int|
        0 <= j < slots.len() && (#[trigger] slots[j]).squad is Some && crate::squad::fresh_unit(
            u,
            slots[j].team,
            slots[j].squad.unwrap().unit,
        )
}

/// Whether `sl` is consistent with the round-start grants: any squad it
/// holds is a knight squad of the Player's configured size or the drawn
/// enemy count, by its team.
pub open spec fn granted_slot(sl: crate::layout::Slot, enemy_count: usize) -> bool {
    sl.squad matches Some(sq) ==> sq.unit == UnitType::Knight && sq.count == (if sl.team
        == Team::Player {
        INITIAL_UNITS
    } else {
        enemy_count
    })
}

/// Whether `sl` holds a squad for `team`.
pub open spec fn filled_for(sl: crate::layout::Slot, team: Team) -> bool {
    sl.squad is Some && sl.team == team
}

/// Whether the `k`-th offered choice can actually be selected: it exists,
/// it points into the item table, and the item still has copies and room to
/// level.
pub open spec fn valid_choice(choices: Seq<ItemChoice>, items: Seq<Item>, k: int) -> bool {
    &&& 0 <= k < choices.len()
    &&& (choices[k].item as int) < items.len()
    &&& items[choices[k].item as int].copies.0 > 0
    &&& items[choices[k].item as int].level.level < usize::MAX
}

/// The whole simulation state.
pub struct Game {
    pub state: GameState,
    pub floor: Floor,
    pub registry: SlotRegistry,
    pub units: Vec<Unit>,
    pub player_speed: SpeedModifier,
    pub enemy_speed: SpeedModifier,
    pub player_squad_size: SquadSizeModifier,
    pub enemy_squad_size: SquadSizeModifier,
    pub items: Vec<Item>,
    pub player_choices: Vec<ItemChoice>,
    pub enemy_choices: Vec<ItemChoice>,
    pub detector: VictoryDetector,
}

impl Game {
    /// The game's well-formedness: the registry and unit table are well
    /// formed, the modifiers respect their caps, and every catalogued item
    /// carries an applicable effect.
    pub open spec fn wf(self) -> bool {
        &&& self.registry.wf()
        &&& wf_units(self.units@)
        &&& self.player_speed.0 <= SPEED_MOD_LIMIT
        &&& self.enemy_speed.0 <= SPEED_MOD_LIMIT
        &&& self.player_squad_size.0 <= SIZE_MOD_LIMIT
        &&& self.enemy_squad_size.0 <= SIZE_MOD_LIMIT
        &&& forall|k: int|
            0 <= k < self.items@.len() ==> wf_effect((#[trigger] self.items@[k]).effect)
        &&& forall|k: int|
            0 <= k < self.player_choices@.len() ==> (#[trigger] self.player_choices@[k]).item
                < self.items@.len()
        &&& forall|k: int|
            0 <= k < self.enemy_choices@.len() ==> (#[trigger] self.enemy_choices@[k]).item
                < self.items@.len()
    }

    /// A fresh game: in the menu, on floor zero, with the initial item
    /// catalogue and default modifiers, and no battlefield yet.
    pub fn new() -> (g: Game)
        ensures
            g.wf(),
            g.state == GameState::Menu,
            g.floor == Floor(0),
            g.units@.len() == 0,
            g.items@.len() == 4,
            !g.detector.engaged,
            g.player_speed == SpeedModifier(100),
            g.enemy_speed == SpeedModifier(100),
            g.player_squad_size == SquadSizeModifier(100),
            g.enemy_squad_size == SquadSizeModifier(100),
            g.registry.slots@.len() == 0,
            g.player_choices@.len() == 0,
            g.enemy_choices@.len() == 0,
    {
        Game {
            state: GameState::Menu,
            floor: Floor(0),
            registry: SlotRegistry::new(),
            units: Vec::new(),
            player_speed: SpeedModifier::default(),
            enemy_speed: SpeedModifier::default(),
            player_squad_size: SquadSizeModifier::default(),
            enemy_squad_size: SquadSizeModifier::default(),
            items: init_items(),
            player_choices: Vec::new(),
            enemy_choices: Vec::new(),
            detector: VictoryDetector::new(),
        }
    }

    /// Raises the floor counter by one.
    pub fn increase_floor(&mut self)
        requires
            old(self).floor.0 < usize::MAX,
        ensures
            final(self).floor.0 == old(self).floor.0 + 1,
            *final(self) == (Game { floor: Floor(final(self).floor.0), ..*old(self) }),
    {
        self.floor.0 = self.floor.0 + 1;
    }

    /// Starts a fresh run: the slot grid is rebuilt at its initial size,
    /// the unit table is cleared, the speed modifiers and reward choices
    /// are reset, and each team is granted one knight squad on a random
    /// slot — the Player's of the configured initial size, the enemy's of
    /// the externally drawn `enemy_count`.
    pub fn init_battle(&mut self, enemy_count: usize)
        requires
            old(self).wf(),
            1 <= enemy_count <= MAX_SQUAD_DESC_COUNT,
        ensures
            final(self).wf(),
            final(self).state == GameState::PreBattle,
            final(self).units@.len() == 0,
            final(self).floor == old(self).floor,
            final(self).items == old(self).items,
            final(self).registry.player.rows == INITIAL_ROWS,
            final(self).registry.player.columns == INITIAL_COLUMNS,
            final(self).registry.enemy.rows == INITIAL_ROWS,
            final(self).registry.enemy.columns == INITIAL_COLUMNS,
            final(self).registry.slots@.len() == 2 * INITIAL_ROWS * INITIAL_COLUMNS,
            crate::layout::count_open(final(self).registry.slots@, Team::Player) == INITIAL_ROWS
                * INITIAL_COLUMNS - 1,
            crate::layout::count_open(final(self).registry.slots@, Team::Enemy) == INITIAL_ROWS
                * INITIAL_COLUMNS - 1,
            final(self).player_speed == SpeedModifier(100),
            final(self).enemy_speed == SpeedModifier(100),
            final(self).player_choices@.len() == 0,
            final(self).enemy_choices@.len() == 0,
            // Every filled slot holds exactly its team's granted squad:
            // knights, of the configured Player size or the drawn enemy
            // count.
            forall|i: int|
                0 <= i < final(self).registry.slots@.len() ==> granted_slot(
                    #[trigger] final(self).registry.slots@[i],
                    enemy_count,
                ),
            // And each team did receive one.
            exists|i: int|
                0 <= i < final(self).registry.slots@.len() && filled_for(
                    #[trigger] final(self).registry.slots@[i],
                    Team::Player,
                ),
            exists|i: int|
                0 <= i < final(self).registry.slots@.len() && filled_for(
                    #[trigger] final(self).registry.slots@[i],
                    Team::Enemy,
                ),
    {
        self.registry.reset();
        self.units = Vec::new();
        self.player_speed = SpeedModifier::default();
        self.enemy_speed = SpeedModifier::default();
        self.player_choices = Vec::new();
        self.enemy_choices = Vec::new();
        let ghost s0 = self.registry.slots@;
        add_squad(
            &mut self.registry,
            Team::Player,
            SquadBundle {
                count: INITIAL_UNITS,
                formation: Formation::Box,
                unit: UnitType::Knight,
            },
        );
        let ghost s1 = self.registry.slots@;
        let ghost ip: int = choose|i: int|
            0 <= i < s0.len() && crate::layout::is_open_slot(#[trigger] s0[i], Team::Player) && s1
                == s0.update(
                i,
                crate::layout::Slot {
                    squad: Some(
                        SquadBundle {
                            count: INITIAL_UNITS,
                            formation: s1[i].squad.unwrap().formation,
                            unit: UnitType::Knight,
                        },
                    ),
                    ..s0[i]
                },
            );
        add_squad(
            &mut self.registry,
            Team::Enemy,
            SquadBundle { count: enemy_count, formation: Formation::Box, unit: UnitType::Knight },
        );
        proof {
            let s2 = self.registry.slots@;
            assert(0 <= ip < s0.len() && crate::layout::is_open_slot(s0[ip], Team::Player) && s1
                == s0.update(
                ip,
                crate::layout::Slot {
                    squad: Some(
                        SquadBundle {
                            count: INITIAL_UNITS,
                            formation: s1[ip].squad.unwrap().formation,
                            unit: UnitType::Knight,
                        },
                    ),
                    ..s0[ip]
                },
            ));
            let ie: int = choose|i: int|
                0 <= i < s1.len() && crate::layout::is_open_slot(#[trigger] s1[i], Team::Enemy)
                    && s2 == s1.update(
                    i,
                    crate::layout::Slot {
                        squad: Some(
                            SquadBundle {
                                count: enemy_count,
                                formation: s2[i].squad.unwrap().formation,
                                unit: UnitType::Knight,
                            },
                        ),
                        ..s1[i]
                    },
                );
            assert(0 <= ie < s1.len() && crate::layout::is_open_slot(s1[ie], Team::Enemy) && s2
                == s1.update(
                ie,
                crate::layout::Slot {
                    squad: Some(
                        SquadBundle {
                            count: enemy_count,
                            formation: s2[ie].squad.unwrap().formation,
                            unit: UnitType::Knight,
                        },
                    ),
                    ..s1[ie]
                },
            ));
            // The two grants land on different slots: the first filled a
            // Player slot, the second an open Enemy slot.
            assert(s1[ip].team == Team::Player);
            assert(ie != ip);
            assert(s2[ip] == s1[ip]);
            assert(filled_for(s2[ip], Team::Player));
            assert(filled_for(s2[ie], Team::Enemy));
            assert forall|i: int| 0 <= i < s2.len() implies granted_slot(
                #[trigger] s2[i],
                enemy_count,
            ) by {
                if i != ip && i != ie {
                    assert(s2[i] == s1[i]);
                    assert(s1[i] == s0[i]);
                    assert(s0[i].squad is None);
                }
            }
        }
        self.state = GameState::PreBattle;
    }

    /// Expands every slot's squad descriptor into concrete units and enters
    /// battle. The previous round's units are despawned first, and each
    /// squad's count is scaled by its team's size modifier.
    pub fn spawn_squads(&mut self)
        requires
            old(self).wf(),
            old(self).state == GameState::PreBattle,
        ensures
            final(self).wf(),
            final(self).state == GameState::Battle,
            final(self).floor == old(self).floor,
            final(self).items == old(self).items,
            final(self).registry == old(self).registry,
            final(self).detector == old(self).detector,
            final(self).units@.len() == spawn_total(
                old(self).registry.slots@,
                old(self).player_squad_size.0 as int,
                old(self).enemy_squad_size.0 as int,
                old(self).registry.slots@.len() as int,
            ),
            count_living(final(self).units@, Team::Player) == team_spawn_total(
                old(self).registry.slots@,
                Team::Player,
                old(self).player_squad_size.0 as int,
                old(self).registry.slots@.len() as int,
            ),
            count_living(final(self).units@, Team::Enemy) == team_spawn_total(
                old(self).registry.slots@,
                Team::Enemy,
                old(self).enemy_squad_size.0 as int,
                old(self).registry.slots@.len() as int,
            ),
            forall|i: int|
                0 <= i < final(self).units@.len() ==> unit_from_slots(
                    #[trigger] final(self).units@[i],
                    old(self).registry.slots@,
                ),
    {
        self.units = Vec::new();
        let n = self.registry.slots.len();
        let mut j: usize = 0;
        while j < n
            invariant
                self.wf(),
                self.registry == old(self).registry,
                self.state == old(self).state,
                self.floor == old(self).floor,
                self.items == old(self).items,
                self.detector == old(self).detector,
                self.player_choices == old(self).player_choices,
                self.enemy_choices == old(self).enemy_choices,
                self.player_speed == old(self).player_speed,
                self.enemy_speed == old(self).enemy_speed,
                self.player_squad_size == old(self).player_squad_size,
                self.enemy_squad_size == old(self).enemy_squad_size,
                n == self.registry.slots@.len(),
                0 <= j <= n,
                self.units@.len() == spawn_total(
                    self.registry.slots@,
                    self.player_squad_size.0 as int,
                    self.enemy_squad_size.0 as int,
                    j as int,
                ),
                count_living(self.units@, Team::Player) == team_spawn_total(
                    self.registry.slots@,
                    Team::Player,
                    self.player_squad_size.0 as int,
                    j as int,
                ),
                count_living(self.units@, Team::Enemy) == team_spawn_total(
                    self.registry.slots@,
                    Team::Enemy,
                    self.enemy_squad_size.0 as int,
                    j as int,
                ),
                forall|jj: int|
                    0 <= jj < j as int ==> #[trigger] squad_block_spawned(
                        self.units@,
                        self.registry.slots@,
                        self.player_squad_size.0 as int,
                        self.enemy_squad_size.0 as int,
                        jj,
                    ),
                forall|i: int|
                    0 <= i < self.units@.len() ==> unit_from_slots(
                        #[trigger] self.units@[i],
                        self.registry.slots@,
                    ),
            decreases n - j,
        {
            let slot = self.registry.slots[j];
            match slot.squad {
                None => (),
                Some(sq) => {
                    proof {
                        assert(crate::layout::wf_slot(self.registry.slots@[j as int]));
                        assert(sq.count <= MAX_SQUAD_DESC_COUNT);
                        crate::layout::lemma_wf_slot_pos_bounds(slot);
                    }
                    let pct = match slot.team {
                        Team::Player => self.player_squad_size.0,
                        Team::Enemy => self.enemy_squad_size.0,
                    };
                    let effective = apply_size_modifier(sq.count, pct as usize);
                    proof {
                        assert(sq.count as int * 100 <= 0x200 * 100) by (nonlinear_arith)
                            requires
                                0 <= sq.count as int <= 0x200,
                        ;
                        assert(effective <= MAX_SQUAD_COUNT);
                    }
                    let ghost base = self.units@.len() as int;
                    let ghost pre_units = self.units@;
                    spawn_squad(
                        &mut self.units,
                        slot.team,
                        sq.unit,
                        &sq.formation,
                        effective,
                        slot.x,
                        slot.y,
                    );
                    proof {
                        let batch = self.units@.subrange(base, self.units@.len() as int);
                        assert(self.units@ =~= pre_units + batch);
                        assert forall|i: int| 0 <= i < batch.len() implies (
                        #[trigger] batch[i]).alive && batch[i].team == slot.team by {
                            assert(batch[i] == self.units@[base + i]);
                            assert(crate::squad::fresh_unit(
                                self.units@[base + i],
                                slot.team,
                                sq.unit,
                            ));
                        }
                        crate::units::lemma_count_living_append(pre_units, batch, Team::Player);
                        crate::units::lemma_count_living_append(pre_units, batch, Team::Enemy);
                        crate::units::lemma_count_living_uniform(
                            batch,
                            slot.team,
                            batch.len() as int,
                        );
                        assert(slot.team.opponent_spec().opponent_spec() == slot.team);
                        assert forall|i: int| 0 <= i < self.units@.len() implies wf_unit(
                            #[trigger] self.units@[i],
                            self.units@.len() as int,
                        ) by {
                            if i < base {
                                assert(self.units@[i] == self.units@.subrange(0, base)[i]);
                                assert(self.units@[i] == pre_units[i]);
                                assert(wf_unit(pre_units[i], base));
                            }
                        }
                        assert forall|i: int| 0 <= i < self.units@.len() implies unit_from_slots(
                            #[trigger] self.units@[i],
                            self.registry.slots@,
                        ) by {
                            if i < base {
                                assert(self.units@[i] == self.units@.subrange(0, base)[i]);
                                assert(self.units@[i] == pre_units[i]);
                                assert(unit_from_slots(pre_units[i], self.registry.slots@));
                            } else {
                                let slots = self.registry.slots@;
                                assert((#[trigger] slots[j as int]).squad is Some
                                    && slots[j as int].team == slot.team
                                    && slots[j as int].squad.unwrap().unit == sq.unit);
                                assert(crate::squad::fresh_unit(
                                    self.units@[i],
                                    slots[j as int].team,
                                    slots[j as int].squad.unwrap().unit,
                                ));
                            }
                        }
                        let slots = self.registry.slots@;
                        let p_pct = self.player_squad_size.0 as int;
                        let e_pct = self.enemy_squad_size.0 as int;
                        assert forall|jj: int| 0 <= jj < j as int + 1 implies
                            #[trigger] squad_block_spawned(
                            self.units@,
                            slots,
                            p_pct,
                            e_pct,
                            jj,
                        ) by {
                            if jj < j as int {
                                lemma_block_preserved(
                                    pre_units,
                                    self.units@,
                                    slots,
                                    p_pct,
                                    e_pct,
                                    jj,
                                    j as int,
                                );
                            } else {
                                let eff = effective as int;
                                assert forall|kk: int| 0 <= kk < eff implies {
                                    let u = #[trigger] self.units@[base + kk];
                                    &&& crate::squad::fresh_unit(u, slot.team, sq.unit)
                                    &&& crate::squad::spawned_near(
                                        u,
                                        slot.team,
                                        slot.x as int,
                                        slot.y as int,
                                        crate::formation::formation_offset(sq.formation, eff, kk),
                                        sq.unit.spacing_spec(),
                                    )
                                } by {
                                    assert(crate::squad::fresh_unit(
                                        self.units@[base + kk],
                                        slot.team,
                                        sq.unit,
                                    ));
                                    assert(crate::squad::spawned_near(
                                        self.units@[base + kk],
                                        slot.team,
                                        slot.x as int,
                                        slot.y as int,
                                        crate::formation::formation_offset(
                                            sq.formation,
                                            effective as int,
                                            (base + kk) - base,
                                        ),
                                        sq.unit.spacing_spec(),
                                    ));
                                }
                                assert(slots[j as int] == slot);
                                assert(base == spawn_total(slots, p_pct, e_pct, j as int));
                                assert(squad_block_spawned(self.units@, slots, p_pct, e_pct, j as int));
                            }
                        }
                    }
                },
            }
            j = j + 1;
        }
        self.state = GameState::Battle;
    }

    /// One battle tick, in the fixed order: targeting, then movement, then
    /// combat, then victory detection. A verdict moves the game to the
    /// Victory or Defeat state; otherwise the battle continues.
    pub fn battle_tick(
        &mut self,
        now_ms: u64,
        dt_ms: u64,
        attack_events: &mut Vec<AttackEvent>,
        death_events: &mut Vec<DeathEvent>,
    ) -> (r: Option<RoundOutcome>)
        requires
            old(self).wf(),
            old(self).state == GameState::Battle,
            now_ms <= TIME_LIMIT,
            dt_ms <= MAX_TICK_MS,
        ensures
            final(self).wf(),
            final(self).units@.len() == old(self).units@.len(),
            final(self).floor == old(self).floor,
            final(self).items == old(self).items,
            final(self).registry == old(self).registry,
            (final(self).detector.engaged, r) == detector_step(
                old(self).detector.engaged,
                count_living(final(self).units@, Team::Player) as nat,
                count_living(final(self).units@, Team::Enemy) as nat,
            ),
            !old(self).detector.engaged ==> r is None,
            r == Some(RoundOutcome::PlayerWon) ==> final(self).state == GameState::Victory,
            r == Some(RoundOutcome::PlayerDefeated) ==> final(self).state == GameState::Defeat,
            r is None ==> final(self).state == GameState::Battle,
            // The tick is exactly the composition of its three phases:
            // combat acting on the moved table, which moved the targeted
            // table, all from the tick's starting state.
            final(self).units@ == crate::ai::attack_upto(
                crate::ai::moved_units_seq(
                    crate::ai::targeted(old(self).units@),
                    dt_ms as int,
                    old(self).player_speed.0 as int,
                    old(self).enemy_speed.0 as int,
                ),
                old(self).units@.len() as int,
                now_ms as int,
            ).0,
            final(attack_events)@ == old(attack_events)@ + crate::ai::attack_upto(
                crate::ai::moved_units_seq(
                    crate::ai::targeted(old(self).units@),
                    dt_ms as int,
                    old(self).player_speed.0 as int,
                    old(self).enemy_speed.0 as int,
                ),
                old(self).units@.len() as int,
                now_ms as int,
            ).1,
            final(death_events)@ == old(death_events)@ + crate::ai::attack_upto(
                crate::ai::moved_units_seq(
                    crate::ai::targeted(old(self).units@),
                    dt_ms as int,
                    old(self).player_speed.0 as int,
                    old(self).enemy_speed.0 as int,
                ),
                old(self).units@.len() as int,
                now_ms as int,
            ).2,
            final(self).player_speed == old(self).player_speed,
            final(self).enemy_speed == old(self).enemy_speed,
            final(self).player_squad_size == old(self).player_squad_size,
            final(self).enemy_squad_size == old(self).enemy_squad_size,
            final(self).player_choices == old(self).player_choices,
            final(self).enemy_choices == old(self).enemy_choices,
    {
        let ghost u0 = self.units@;
        set_target(&mut self.units);
        proof {
            assert(self.units@ == crate::ai::targeted(u0));
        }
        move_units(&mut self.units, dt_ms, self.player_speed.0, self.enemy_speed.0);
        proof {
            assert(self.units@ == crate::ai::moved_units_seq(
                crate::ai::targeted(u0),
                dt_ms as int,
                old(self).player_speed.0 as int,
                old(self).enemy_speed.0 as int,
            ));
        }
        attack(&mut self.units, now_ms, attack_events, death_events);
        let r = self.detector.detect_victory(&self.units);
        match r {
            Some(RoundOutcome::PlayerWon) => {
                self.state = GameState::Victory;
            },
            Some(RoundOutcome::PlayerDefeated) => {
                self.state = GameState::Defeat;
            },
            None => (),
        }
        r
    }

    /// Enters the reward phase after a win: both teams draw their weighted
    /// reward choices (an exhausted pool yields none), and the enemy's
    /// automatic upgrade immediately picks one of its own choices uniformly
    /// at random and applies it.
    pub fn prepare_rewards(&mut self)
        requires
            old(self).wf(),
            old(self).state == GameState::Victory,
        ensures
            final(self).wf(),
            final(self).state == GameState::Victory,
            final(self).floor == old(self).floor,
            final(self).items == old(self).items,
            final(self).units == old(self).units,
            final(self).detector == old(self).detector,
            // Each team's offering is drawn from its own weighted pool: the
            // default number of choices when the pool is non-empty, none
            // when every item is exhausted or ineligible.
            final(self).player_choices@.len() == (if weighted_pool(
                old(self).items@,
                crate::layout::count_open(old(self).registry.slots@, Team::Player),
            ).len() == 0 {
                0int
            } else {
                crate::choices::DEFAULT_NUM_CHOICES as int
            }),
            final(self).enemy_choices@.len() == (if weighted_pool(
                old(self).items@,
                crate::layout::count_open(old(self).registry.slots@, Team::Enemy),
            ).len() == 0 {
                0int
            } else {
                crate::choices::DEFAULT_NUM_CHOICES as int
            }),
            // Every offered choice is an eligible item with its fields
            // snapshotted.
            forall|k: int|
                0 <= k < final(self).player_choices@.len() ==> {
                    let c = #[trigger] final(self).player_choices@[k];
                    &&& (c.item as int) < old(self).items@.len()
                    &&& eligible(
                        old(self).items@[c.item as int],
                        crate::layout::count_open(old(self).registry.slots@, Team::Player),
                    )
                    &&& c.copies == old(self).items@[c.item as int].copies.0
                    &&& c.rarity == old(self).items@[c.item as int].rarity
                    &&& c.level == old(self).items@[c.item as int].level
                },
            forall|k: int|
                0 <= k < final(self).enemy_choices@.len() ==> {
                    let c = #[trigger] final(self).enemy_choices@[k];
                    &&& (c.item as int) < old(self).items@.len()
                    &&& eligible(
                        old(self).items@[c.item as int],
                        crate::layout::count_open(old(self).registry.slots@, Team::Enemy),
                    )
                    &&& c.copies == old(self).items@[c.item as int].copies.0
                    &&& c.rarity == old(self).items@[c.item as int].rarity
                    &&& c.level == old(self).items@[c.item as int].level
                },
            // The enemy's automatic upgrade applies the effect of one of
            // its own drawn choices, acting as the Enemy; with no choices
            // there is nothing to apply and the battlefield state is kept.
            final(self).enemy_choices@.len() > 0 ==> exists|kk: int, eok: bool|
                0 <= kk < final(self).enemy_choices@.len() && #[trigger] effect_applied(
                    old(self).items@[final(self).enemy_choices@[kk].item as int].effect,
                    Team::Enemy,
                    old(self).registry,
                    final(self).registry,
                    old(self).player_speed,
                    final(self).player_speed,
                    old(self).enemy_speed,
                    final(self).enemy_speed,
                    old(self).player_squad_size,
                    final(self).player_squad_size,
                    old(self).enemy_squad_size,
                    final(self).enemy_squad_size,
                    eok,
                ),
            final(self).enemy_choices@.len() == 0 ==> final(self).registry == old(self).registry
                && final(self).player_speed == old(self).player_speed && final(self).enemy_speed
                == old(self).enemy_speed && final(self).player_squad_size == old(
                self,
            ).player_squad_size && final(self).enemy_squad_size == old(self).enemy_squad_size,
    {
        let num = NumItemChoices::default();
        let player_open = count_open_slots(&self.registry, Team::Player);
        let enemy_open = count_open_slots(&self.registry, Team::Enemy);

        self.player_choices = match set_item_choices(&self.items, player_open, num.0) {
            Some(cs) => cs,
            None => Vec::new(),
        };
        self.enemy_choices = match set_item_choices(&self.items, enemy_open, num.0) {
            Some(cs) => cs,
            None => Vec::new(),
        };

        // The enemy's self-upgrade: a uniform pick among its own choices.
        if self.enemy_choices.len() > 0 {
            let pick = rand_below(self.enemy_choices.len());
            let choice = self.enemy_choices[pick];
            let effect = self.items[choice.item].effect;
            let applied = apply_effect(
                &effect,
                Team::Enemy,
                &mut self.registry,
                &mut self.player_speed,
                &mut self.enemy_speed,
                &mut self.player_squad_size,
                &mut self.enemy_squad_size,
            );
            proof {
                assert(effect_applied(
                    old(self).items@[self.enemy_choices@[pick as int].item as int].effect,
                    Team::Enemy,
                    old(self).registry,
                    self.registry,
                    old(self).player_speed,
                    self.player_speed,
                    old(self).enemy_speed,
                    self.enemy_speed,
                    old(self).player_squad_size,
                    self.player_squad_size,
                    old(self).enemy_squad_size,
                    self.enemy_squad_size,
                    applied,
                ));
            }
        }
    }

    /// The Player's manual reward selection: choice `k` levels the chosen
    /// item up (spending a copy once the level cap is reached), applies its
    /// effect for the Player, raises the floor, and moves on to the next
    /// round's pre-battle phase. An out-of-range or stale choice changes
    /// nothing and returns false.
    pub fn select_reward(&mut self, k: usize) -> (ok: bool)
        requires
            old(self).wf(),
            old(self).state == GameState::Victory,
            old(self).floor.0 < usize::MAX,
        ensures
            final(self).wf(),
            // Selection succeeds exactly on a valid, unexhausted choice.
            ok <==> valid_choice(old(self).player_choices@, old(self).items@, k as int),
            !ok ==> *final(self) == *old(self),
            ok ==> final(self).state == GameState::PreBattle,
            ok ==> final(self).floor.0 == old(self).floor.0 + 1,
            ok ==> {
                let idx = old(self).player_choices@[k as int].item as int;
                let it = old(self).items@[idx];
                &&& final(self).items@.len() == old(self).items@.len()
                &&& final(self).items@[idx].level.level == it.level.level + 1
                &&& final(self).items@[idx].level.max_level == it.level.max_level
                &&& (it.level.level + 1 >= it.level.max_level ==> final(self).items@[idx].copies.0
                    == it.copies.0 - 1)
                &&& (it.level.level + 1 < it.level.max_level ==> final(self).items@[idx].copies.0
                    == it.copies.0)
                &&& forall|j: int|
                    0 <= j < final(self).items@.len() && j != idx
                        ==> #[trigger] final(self).items@[j] == old(self).items@[j]
            },
            // The chosen item's effect is applied once, for the Player.
            ok ==> exists|eok: bool|
                #[trigger] effect_applied(
                    old(self).items@[old(self).player_choices@[k as int].item as int].effect,
                    Team::Player,
                    old(self).registry,
                    final(self).registry,
                    old(self).player_speed,
                    final(self).player_speed,
                    old(self).enemy_speed,
                    final(self).enemy_speed,
                    old(self).player_squad_size,
                    final(self).player_squad_size,
                    old(self).enemy_squad_size,
                    final(self).enemy_squad_size,
                    eok,
                ),
            // Beyond the selected item and the applied effect, nothing else
            // changes.
            ok ==> final(self).units == old(self).units,
            ok ==> final(self).player_choices == old(self).player_choices,
            ok ==> final(self).enemy_choices == old(self).enemy_choices,
            ok ==> final(self).detector == old(self).detector,
    {
        if k >= self.player_choices.len() {
            return false;
        }
        let choice = self.player_choices[k];
        if choice.item >= self.items.len() {
            return false;
        }
        if self.items[choice.item].copies.0 == 0 {
            return false;
        }
        if self.items[choice.item].level.level == usize::MAX {
            return false;
        }

        let effect = self.items[choice.item].effect;
        select_item(&mut self.items[choice.item]);
        let applied = apply_effect(
            &effect,
            Team::Player,
            &mut self.registry,
            &mut self.player_speed,
            &mut self.enemy_speed,
            &mut self.player_squad_size,
            &mut self.enemy_squad_size,
        );
        let ghost reg_mid = self.registry;
        let ghost ps_mid = self.player_speed;
        let ghost es_mid = self.enemy_speed;
        let ghost pz_mid = self.player_squad_size;
        let ghost ez_mid = self.enemy_squad_size;
        proof {
            assert(effect_applied(
                old(self).items@[old(self).player_choices@[k as int].item as int].effect,
                Team::Player,
                old(self).registry,
                reg_mid,
                old(self).player_speed,
                ps_mid,
                old(self).enemy_speed,
                es_mid,
                old(self).player_squad_size,
                pz_mid,
                old(self).enemy_squad_size,
                ez_mid,
                applied,
            ));
        }
        self.increase_floor();
        self.state = GameState::PreBattle;
        proof {
            assert(self.registry == reg_mid && self.player_speed == ps_mid && self.enemy_speed
                == es_mid && self.player_squad_size == pz_mid && self.enemy_squad_size == ez_mid);
            assert(effect_applied(
                old(self).items@[old(self).player_choices@[k as int].item as int].effect,
                Team::Player,
                old(self).registry,
                self.registry,
                old(self).player_speed,
                self.player_speed,
                old(self).enemy_speed,
                self.enemy_speed,
                old(self).player_squad_size,
                self.player_squad_size,
                old(self).enemy_squad_size,
                self.enemy_squad_size,
                applied,
            ));
        }
        true
    }
}

} // verus!
