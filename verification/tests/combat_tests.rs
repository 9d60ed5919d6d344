use autobattler::ai::{attack, move_units, nearest_living_enemy, set_target, AttackEvent, DeathEvent};
use autobattler::team::Team;
use autobattler::units::{living_units, Movement, MovementStyle, Unit, UnitType};

fn unit_at(team: Team, x: i64, y: i64, health: i64) -> Unit {
    Unit {
        team,
        unit_type: UnitType::Knight,
        x,
        y,
        health,
        damage: 20,
        range: 216,
        attack_cooldown_ms: 1000,
        last_attack_ms: 0,
        movement_speed: 360,
        movement_style: MovementStyle::WithinRange,
        target: None,
        movement: None,
        alive: health > 0,
    }
}

#[test]
fn targeting_picks_the_nearest_living_enemy() {
    let units = vec![
        unit_at(Team::Player, 0, 0, 100),
        unit_at(Team::Enemy, 500, 0, 100),
        unit_at(Team::Enemy, 100, 0, 100),
    ];
    assert_eq!(nearest_living_enemy(&units, 0), Some(2));
}

#[test]
fn targeting_breaks_ties_by_table_order() {
    // Two enemies exactly equidistant: the first in table order wins.
    let units = vec![
        unit_at(Team::Player, 0, 0, 100),
        unit_at(Team::Enemy, 100, 0, 100),
        unit_at(Team::Enemy, -100, 0, 100),
    ];
    assert_eq!(nearest_living_enemy(&units, 0), Some(1));
    // And it stays the same on every re-evaluation.
    for _ in 0..5 {
        assert_eq!(nearest_living_enemy(&units, 0), Some(1));
    }
}

#[test]
fn targeting_skips_dead_enemies_and_clears_idle_units() {
    let mut units = vec![
        unit_at(Team::Player, 0, 0, 100),
        unit_at(Team::Enemy, 100, 0, 0),
    ];
    units[0].target = Some(1);
    units[0].movement = Some(Movement::Direct { x: 1, y: 1 });
    set_target(&mut units);
    assert_eq!(units[0].target, None);
    assert_eq!(units[0].movement, None);
}

#[test]
fn set_target_records_goal_at_the_enemy_position() {
    let mut units = vec![
        unit_at(Team::Player, 0, 0, 100),
        unit_at(Team::Enemy, 1000, 0, 100),
    ];
    set_target(&mut units);
    assert_eq!(units[0].target, Some(1));
    assert_eq!(
        units[0].movement,
        Some(Movement::WithinRange { x: 1000, y: 0, range: 216 })
    );
    assert_eq!(units[1].target, Some(0));
}

#[test]
fn targets_are_not_sticky_between_ticks() {
    // A closer enemy appearing on the next tick supersedes the target.
    let mut units = vec![
        unit_at(Team::Player, 0, 0, 100),
        unit_at(Team::Enemy, 1000, 0, 100),
        unit_at(Team::Enemy, 5000, 0, 100),
    ];
    set_target(&mut units);
    assert_eq!(units[0].target, Some(1));
    units[2].x = 300;
    set_target(&mut units);
    assert_eq!(units[0].target, Some(2));
}

#[test]
fn movement_walks_straight_toward_the_goal() {
    let mut units = vec![unit_at(Team::Player, 0, 0, 100)];
    units[0].movement = Some(Movement::Direct { x: 10_000, y: 0 });
    // step = 360 * 1000 * 100 / 100000 = 360 coordinate units.
    move_units(&mut units, 1000, 100, 100);
    assert_eq!((units[0].x, units[0].y), (360, 0));
}

#[test]
fn movement_scales_with_the_team_speed_modifier() {
    let mut units = vec![unit_at(Team::Player, 0, 0, 100)];
    units[0].movement = Some(Movement::Direct { x: 10_000, y: 0 });
    move_units(&mut units, 1000, 125, 100);
    assert_eq!(units[0].x, 450);
}

#[test]
fn movement_stops_within_attack_range() {
    let mut units = vec![unit_at(Team::Player, 0, 0, 100)];
    units[0].movement = Some(Movement::WithinRange { x: 200, y: 0, range: 216 });
    move_units(&mut units, 1000, 100, 100);
    assert_eq!((units[0].x, units[0].y), (0, 0));
}

#[test]
fn movement_never_overshoots_the_goal() {
    let mut units = vec![unit_at(Team::Player, 0, 0, 100)];
    units[0].movement = Some(Movement::Direct { x: 50, y: 0 });
    move_units(&mut units, 1000, 100, 100);
    assert_eq!(units[0].x, 50);
}

#[test]
fn a_unit_standing_on_its_goal_stays_put() {
    let mut units = vec![unit_at(Team::Player, 70, -30, 100)];
    units[0].movement = Some(Movement::Direct { x: 70, y: -30 });
    move_units(&mut units, 1000, 100, 100);
    assert_eq!((units[0].x, units[0].y), (70, -30));
}

#[test]
fn dead_units_do_not_move() {
    let mut units = vec![unit_at(Team::Player, 0, 0, 0)];
    units[0].movement = Some(Movement::Direct { x: 10_000, y: 0 });
    move_units(&mut units, 1000, 100, 100);
    assert_eq!(units[0].x, 0);
}

#[test]
fn attack_applies_damage_inside_range_only() {
    let mut units = vec![
        unit_at(Team::Player, 0, 0, 100),
        unit_at(Team::Enemy, 100, 0, 100),
        unit_at(Team::Enemy, 10_000, 0, 100),
    ];
    units[0].target = Some(1);
    let mut attacks: Vec<AttackEvent> = Vec::new();
    let mut deaths: Vec<DeathEvent> = Vec::new();
    attack(&mut units, 5000, &mut attacks, &mut deaths);
    assert_eq!(units[1].health, 80);
    assert_eq!(units[0].last_attack_ms, 5000);
    // Only the targeting unit attacked; the others had no target.
    assert_eq!(attacks.len(), 1);
    assert_eq!(units[0].health, 100);
    assert!(deaths.is_empty());

    // Out of range: no attack.
    let mut units2 = vec![unit_at(Team::Player, 0, 0, 100), unit_at(Team::Enemy, 10_000, 0, 100)];
    units2[0].target = Some(1);
    let mut a2: Vec<AttackEvent> = Vec::new();
    let mut d2: Vec<DeathEvent> = Vec::new();
    attack(&mut units2, 5000, &mut a2, &mut d2);
    assert_eq!(units2[1].health, 100);
    assert!(a2.is_empty());
}

#[test]
fn attack_respects_the_cooldown() {
    let mut units = vec![
        unit_at(Team::Player, 0, 0, 1000),
        unit_at(Team::Enemy, 100, 0, 1000),
    ];
    units[0].target = Some(1);
    units[1].target = Some(0);
    let mut attacks: Vec<AttackEvent> = Vec::new();
    let mut deaths: Vec<DeathEvent> = Vec::new();
    attack(&mut units, 5000, &mut attacks, &mut deaths);
    assert_eq!(units[1].health, 980);
    // 400 ms later the 1000 ms cooldown has not elapsed: no damage.
    attack(&mut units, 5400, &mut attacks, &mut deaths);
    assert_eq!(units[1].health, 980);
    // Once it elapses, the next blow lands.
    attack(&mut units, 6000, &mut attacks, &mut deaths);
    assert_eq!(units[1].health, 960);
}

#[test]
fn one_kill_yields_one_death_notification() {
    // Two attackers both aiming at a 10-health target: the first blow
    // kills; the second attacker skips the already-dead target, so health
    // never drops further and only one death is notified.
    let mut units = vec![
        unit_at(Team::Player, 0, 0, 100),
        unit_at(Team::Player, 0, 50, 100),
        unit_at(Team::Enemy, 100, 0, 10),
    ];
    units[0].target = Some(2);
    units[1].target = Some(2);
    let mut attacks: Vec<AttackEvent> = Vec::new();
    let mut deaths: Vec<DeathEvent> = Vec::new();
    attack(&mut units, 5000, &mut attacks, &mut deaths);
    assert_eq!(units[2].health, -10);
    assert!(!units[2].alive);
    assert_eq!(deaths.len(), 1);
    assert_eq!(deaths[0].unit, 2);
    // The dead target never attacked back, and only the killing blow hit.
    assert_eq!(attacks.len(), 1);
    assert_eq!(attacks[0].attacker, 0);
    assert_eq!(attacks[0].target, 2);
    assert_eq!(living_units(&units, Team::Enemy), 0);
}

#[test]
fn damage_can_overshoot_below_zero_but_never_twice() {
    let mut units = vec![
        unit_at(Team::Player, 0, 0, 100),
        unit_at(Team::Enemy, 100, 0, 5),
    ];
    units[0].target = Some(1);
    let mut attacks: Vec<AttackEvent> = Vec::new();
    let mut deaths: Vec<DeathEvent> = Vec::new();
    attack(&mut units, 1000, &mut attacks, &mut deaths);
    assert_eq!(units[1].health, -15);
    // Later ticks leave the corpse's health exactly where it was.
    attack(&mut units, 3000, &mut attacks, &mut deaths);
    attack(&mut units, 5000, &mut attacks, &mut deaths);
    assert_eq!(units[1].health, -15);
    assert_eq!(deaths.len(), 1);
}
