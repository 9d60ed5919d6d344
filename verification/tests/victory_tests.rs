use autobattler::victory::{RoundOutcome, VictoryDetector};

#[test]
fn waiting_with_empty_field_reports_nothing() {
    let mut d = VictoryDetector::new();
    for _ in 0..10 {
        assert_eq!(d.observe(0, 0), None);
        assert!(!d.engaged);
    }
}

#[test]
fn waiting_never_reports_even_with_units() {
    let mut d = VictoryDetector::new();
    // The first observation with units engages but yields no verdict.
    assert_eq!(d.observe(10, 0), None);
    assert!(d.engaged);
}

#[test]
fn player_wins_once_engaged_and_enemy_is_wiped() {
    let mut d = VictoryDetector::new();
    assert_eq!(d.observe(10, 5), None);
    assert_eq!(d.observe(9, 3), None);
    assert_eq!(d.observe(7, 0), Some(RoundOutcome::PlayerWon));
    assert!(!d.engaged);
    // Back in Waiting: the empty field reports nothing again.
    assert_eq!(d.observe(0, 0), None);
}

#[test]
fn player_defeated_once_engaged_and_wiped() {
    let mut d = VictoryDetector::new();
    assert_eq!(d.observe(4, 6), None);
    assert_eq!(d.observe(0, 6), Some(RoundOutcome::PlayerDefeated));
    assert!(!d.engaged);
}

#[test]
fn mutual_annihilation_counts_as_defeat() {
    let mut d = VictoryDetector::new();
    assert_eq!(d.observe(1, 1), None);
    assert_eq!(d.observe(0, 0), Some(RoundOutcome::PlayerDefeated));
}

#[test]
fn both_sides_alive_keeps_the_battle_running() {
    let mut d = VictoryDetector::new();
    assert_eq!(d.observe(2, 2), None);
    for _ in 0..5 {
        assert_eq!(d.observe(1, 1), None);
        assert!(d.engaged);
    }
}
