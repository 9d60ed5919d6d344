use autobattler::formation::Formation;
use autobattler::math::isqrt;
use autobattler::squad::{apply_size_modifier, spawn_squad, SPAWN_JITTER};
use autobattler::team::Team;
use autobattler::units::{Unit, UnitType};

#[test]
fn isqrt_is_the_floor_square_root() {
    assert_eq!(isqrt(0), 0);
    assert_eq!(isqrt(1), 1);
    assert_eq!(isqrt(3), 1);
    assert_eq!(isqrt(4), 2);
    assert_eq!(isqrt(99), 9);
    assert_eq!(isqrt(100), 10);
    assert_eq!(isqrt(u64::MAX), 0xffff_ffff);
}

#[test]
fn size_modifier_truncates_toward_zero() {
    assert_eq!(apply_size_modifier(10, 100), 10);
    assert_eq!(apply_size_modifier(10, 150), 15);
    assert_eq!(apply_size_modifier(10, 125), 12);
    assert_eq!(apply_size_modifier(3, 50), 1);
    assert_eq!(apply_size_modifier(1, 99), 0);
    assert_eq!(apply_size_modifier(0, 500), 0);
}

#[test]
fn spawned_units_sit_near_their_mirrored_offsets() {
    let mut units: Vec<Unit> = Vec::new();
    let spawned = spawn_squad(
        &mut units,
        Team::Player,
        UnitType::Knight,
        &Formation::Box,
        3,
        0,
        0,
    );
    assert_eq!(spawned, 3);
    assert_eq!(units.len(), 3);
    // Three units fill a 2-wide box: offsets (0,0), (1,0), (0,1). Spacing
    // is 240 and the Player side mirrors x; jitter shifts each by at most
    // 24 per axis.
    let offsets = [(0i64, 0i64), (1, 0), (0, 1)];
    for (k, u) in units.iter().enumerate() {
        let expected_x = -(offsets[k].0 * 240);
        let expected_y = offsets[k].1 * 240;
        assert!((u.x - expected_x).abs() <= SPAWN_JITTER);
        assert!((u.y - expected_y).abs() <= SPAWN_JITTER);
        assert_eq!(u.team, Team::Player);
        assert_eq!(u.unit_type, UnitType::Knight);
        assert_eq!(u.health, 100);
        assert_eq!(u.damage, 20);
        assert_eq!(u.range, 216);
        assert_eq!(u.movement_speed, 360);
        assert!(u.alive);
        assert!(u.target.is_none());
    }
}

#[test]
fn enemy_squads_spawn_unmirrored() {
    let mut units: Vec<Unit> = Vec::new();
    spawn_squad(
        &mut units,
        Team::Enemy,
        UnitType::Archer,
        &Formation::Box,
        2,
        1000,
        -500,
    );
    assert_eq!(units.len(), 2);
    assert!((units[0].x - 1000).abs() <= SPAWN_JITTER);
    assert!((units[1].x - 1240).abs() <= SPAWN_JITTER);
    assert!((units[0].y + 500).abs() <= SPAWN_JITTER);
    assert_eq!(units[1].health, 50);
    assert_eq!(units[1].range, 1200);
}
