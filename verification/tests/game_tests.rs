use autobattler::ai::{AttackEvent, DeathEvent};
use autobattler::effects::{add_movement_speed, apply_effect, count_open_slots, SpeedModifier, SquadSizeModifier};
use autobattler::game::{Game, GameState, INITIAL_UNITS};
use autobattler::items::ItemEffect;
use autobattler::layout::{SlotRegistry, INITIAL_COLUMNS, INITIAL_ROWS};
use autobattler::squad::SquadBundle;
use autobattler::team::Team;
use autobattler::units::living_units;
use autobattler::victory::RoundOutcome;

#[test]
fn fresh_game_sits_in_the_menu() {
    let g = Game::new();
    assert_eq!(g.state, GameState::Menu);
    assert_eq!(g.floor.0, 0);
    assert!(g.units.is_empty());
    assert_eq!(g.items.len(), 4);
}

#[test]
fn init_battle_builds_the_initial_field() {
    let mut g = Game::new();
    g.init_battle(5);
    assert_eq!(g.state, GameState::PreBattle);
    assert_eq!(g.registry.slots.len(), 2 * INITIAL_ROWS * INITIAL_COLUMNS);
    // One squad per team was granted onto a random slot.
    assert_eq!(count_open_slots(&g.registry, Team::Player), INITIAL_ROWS * INITIAL_COLUMNS - 1);
    assert_eq!(count_open_slots(&g.registry, Team::Enemy), INITIAL_ROWS * INITIAL_COLUMNS - 1);
}

#[test]
fn spawning_yields_one_unit_per_squad_member() {
    let mut g = Game::new();
    g.init_battle(5);
    g.spawn_squads();
    assert_eq!(g.state, GameState::Battle);
    assert_eq!(living_units(&g.units, Team::Player), INITIAL_UNITS);
    assert_eq!(living_units(&g.units, Team::Enemy), 5);
}

#[test]
fn ten_knights_beat_five_and_the_floor_rises() {
    // A round with a Player squad of ten knights against five: the enemy
    // side reaches zero living units while the Player retains some, the
    // round outcome is a Player win, and the floor counter rises by one.
    let mut g = Game::new();
    g.init_battle(5);
    g.spawn_squads();

    let mut attacks: Vec<AttackEvent> = Vec::new();
    let mut deaths: Vec<DeathEvent> = Vec::new();
    let mut outcome = None;
    let mut now: u64 = 0;
    for _ in 0..100_000u64 {
        now += 100;
        if let Some(r) = g.battle_tick(now, 100, &mut attacks, &mut deaths) {
            outcome = Some(r);
            break;
        }
    }
    assert_eq!(outcome, Some(RoundOutcome::PlayerWon));
    assert_eq!(g.state, GameState::Victory);
    assert_eq!(living_units(&g.units, Team::Enemy), 0);
    assert!(living_units(&g.units, Team::Player) >= 1);
    // Each of the five enemies died exactly once, and nobody died twice.
    let mut seen = vec![0usize; g.units.len()];
    for d in &deaths {
        seen[d.unit] += 1;
    }
    assert!(seen.iter().all(|&c| c <= 1));
    assert_eq!(
        deaths.iter().filter(|d| g.units[d.unit].team == Team::Enemy).count(),
        5
    );

    let floor_before = g.floor.0;
    g.prepare_rewards();
    // The pool is never empty here (the speed boost has no requirement),
    // so each team draws the default number of choices.
    assert_eq!(g.player_choices.len(), 3);
    assert_eq!(g.enemy_choices.len(), 3);
    assert!(g.select_reward(0));
    assert_eq!(g.floor.0, floor_before + 1);
    assert_eq!(g.state, GameState::PreBattle);
}

#[test]
fn a_second_round_runs_to_a_verdict() {
    let mut g = Game::new();
    g.init_battle(5);
    g.spawn_squads();
    let mut attacks: Vec<AttackEvent> = Vec::new();
    let mut deaths: Vec<DeathEvent> = Vec::new();
    let mut now: u64 = 0;
    let mut run_round = |g: &mut Game,
                         now: &mut u64,
                         attacks: &mut Vec<AttackEvent>,
                         deaths: &mut Vec<DeathEvent>| {
        for _ in 0..200_000u64 {
            *now += 100;
            if let Some(r) = g.battle_tick(*now, 100, attacks, deaths) {
                return Some(r);
            }
        }
        None
    };
    let first = run_round(&mut g, &mut now, &mut attacks, &mut deaths);
    assert_eq!(first, Some(RoundOutcome::PlayerWon));
    g.prepare_rewards();
    assert!(g.select_reward(0));
    assert_eq!(g.floor.0, 1);
    // Next round: squads respawn from the persistent slots, possibly grown
    // by both sides' rewards, and the battle resolves again either way.
    g.spawn_squads();
    assert_eq!(g.state, GameState::Battle);
    let second = run_round(&mut g, &mut now, &mut attacks, &mut deaths);
    assert!(second.is_some());
}

#[test]
fn out_of_range_reward_choice_changes_nothing() {
    let mut g = Game::new();
    g.init_battle(1);
    g.spawn_squads();
    // Force the reward phase without choices.
    let mut attacks: Vec<AttackEvent> = Vec::new();
    let mut deaths: Vec<DeathEvent> = Vec::new();
    let mut now = 0u64;
    while g.state == GameState::Battle {
        now += 100;
        g.battle_tick(now, 100, &mut attacks, &mut deaths);
        if now > 100_000_000 {
            panic!("battle never resolved");
        }
    }
    if g.state == GameState::Victory {
        let floor = g.floor.0;
        assert!(!g.select_reward(99));
        assert_eq!(g.floor.0, floor);
        assert_eq!(g.state, GameState::Victory);
    }
}

#[test]
fn speed_boost_accumulates_on_the_acting_team() {
    let mut m = SpeedModifier::default();
    assert_eq!(m.0, 100);
    add_movement_speed(&mut m, 25);
    assert_eq!(m.0, 125);
    add_movement_speed(&mut m, 25);
    assert_eq!(m.0, 150);
}

#[test]
fn apply_effect_routes_to_the_acting_team() {
    let mut reg = SlotRegistry::new();
    reg.reset();
    let mut ps = SpeedModifier::default();
    let mut es = SpeedModifier::default();
    let mut pz = SquadSizeModifier::default();
    let mut ez = SquadSizeModifier::default();

    assert!(apply_effect(
        &ItemEffect::AddMovementSpeed(25),
        Team::Enemy,
        &mut reg,
        &mut ps,
        &mut es,
        &mut pz,
        &mut ez,
    ));
    assert_eq!(ps.0, 100);
    assert_eq!(es.0, 125);

    let before = reg.slots.len();
    assert!(apply_effect(
        &ItemEffect::AddColumn,
        Team::Player,
        &mut reg,
        &mut ps,
        &mut es,
        &mut pz,
        &mut ez,
    ));
    assert_eq!(reg.player.columns, INITIAL_COLUMNS + 1);
    assert_eq!(reg.enemy.columns, INITIAL_COLUMNS);
    assert_eq!(reg.slots.len(), before + INITIAL_ROWS);

    assert!(apply_effect(
        &ItemEffect::AddRow,
        Team::Player,
        &mut reg,
        &mut ps,
        &mut es,
        &mut pz,
        &mut ez,
    ));
    assert_eq!(reg.player.rows, INITIAL_ROWS + 1);
    assert_eq!(reg.enemy.rows, INITIAL_ROWS);
}

#[test]
fn squad_grants_drop_without_an_open_slot() {
    let mut reg = SlotRegistry::new();
    reg.reset();
    let mut ps = SpeedModifier::default();
    let mut es = SpeedModifier::default();
    let mut pz = SquadSizeModifier::default();
    let mut ez = SquadSizeModifier::default();
    let grant = ItemEffect::AddSquad(SquadBundle { count: 10, ..Default::default() });

    // The player grid has three slots; three grants fill them all.
    for _ in 0..INITIAL_ROWS * INITIAL_COLUMNS {
        assert!(apply_effect(&grant, Team::Player, &mut reg, &mut ps, &mut es, &mut pz, &mut ez));
    }
    assert_eq!(count_open_slots(&reg, Team::Player), 0);
    // A fourth grant finds no open slot and is dropped.
    assert!(!apply_effect(&grant, Team::Player, &mut reg, &mut ps, &mut es, &mut pz, &mut ez));
    // The enemy side is untouched throughout.
    assert_eq!(count_open_slots(&reg, Team::Enemy), INITIAL_ROWS * INITIAL_COLUMNS);
}
