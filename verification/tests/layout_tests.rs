use autobattler::layout::{
    slot_coords, SlotRegistry, COLUMN_WIDTH, INITIAL_COLUMNS, INITIAL_ROWS, ROW_HEIGHT,
};
use autobattler::team::Team;

#[test]
fn slot_coords_follow_the_shared_formula() {
    // Row 1, column 1: x = 1 * 1700 + 850, y = 1 * 1440 + 720 - 3600.
    assert_eq!(slot_coords(1, 1), (2550, -1440));
    assert_eq!(slot_coords(3, 1), (2550, 1440));
    assert_eq!(slot_coords(2, 2), (2 * COLUMN_WIDTH + COLUMN_WIDTH / 2, 2 * ROW_HEIGHT + ROW_HEIGHT / 2 - 3600));
}

#[test]
fn reset_builds_the_initial_grid_for_both_teams() {
    let mut reg = SlotRegistry::new();
    reg.reset();
    assert_eq!(reg.player.rows, INITIAL_ROWS);
    assert_eq!(reg.player.columns, INITIAL_COLUMNS);
    assert_eq!(reg.enemy.rows, INITIAL_ROWS);
    assert_eq!(reg.enemy.columns, INITIAL_COLUMNS);
    assert_eq!(reg.slots.len(), 2 * INITIAL_ROWS * INITIAL_COLUMNS);
    for slot in &reg.slots {
        assert!(slot.squad.is_none());
    }
}

#[test]
fn add_column_creates_one_slot_per_unlocked_row() {
    // Columns at 1 and rows at 3: growing to 2 columns adds exactly
    // `rows` new slots, at the new column, by the formula.
    let mut reg = SlotRegistry::new();
    reg.reset();
    let before = reg.slots.len();
    reg.add_column(Team::Player);
    assert_eq!(reg.player.columns, 2);
    assert_eq!(reg.player.rows, INITIAL_ROWS);
    assert_eq!(reg.slots.len(), before + INITIAL_ROWS);
    for (k, slot) in reg.slots[before..].iter().enumerate() {
        assert_eq!(slot.team, Team::Player);
        assert_eq!(slot.row, k + 1);
        assert_eq!(slot.column, 2);
        let (x, y) = slot_coords(k + 1, 2);
        assert_eq!(slot.x, -x);
        assert_eq!(slot.y, y);
        assert!(slot.squad.is_none());
    }
    // The other team is untouched.
    assert_eq!(reg.enemy.columns, INITIAL_COLUMNS);
    assert_eq!(reg.enemy.rows, INITIAL_ROWS);
}

#[test]
fn add_row_creates_one_slot_per_unlocked_column() {
    let mut reg = SlotRegistry::new();
    reg.reset();
    reg.add_column(Team::Enemy);
    let before = reg.slots.len();
    reg.add_row(Team::Enemy);
    assert_eq!(reg.enemy.rows, INITIAL_ROWS + 1);
    assert_eq!(reg.enemy.columns, 2);
    assert_eq!(reg.slots.len(), before + 2);
    for (k, slot) in reg.slots[before..].iter().enumerate() {
        assert_eq!(slot.team, Team::Enemy);
        assert_eq!(slot.row, INITIAL_ROWS + 1);
        assert_eq!(slot.column, k + 1);
        let (x, y) = slot_coords(INITIAL_ROWS + 1, k + 1);
        assert_eq!(slot.x, x);
        assert_eq!(slot.y, y);
    }
}

#[test]
fn grid_growth_never_shrinks_either_team() {
    let mut reg = SlotRegistry::new();
    reg.reset();
    let (pr, pc) = (reg.player.rows, reg.player.columns);
    let (er, ec) = (reg.enemy.rows, reg.enemy.columns);
    reg.add_column(Team::Player);
    reg.add_row(Team::Enemy);
    assert!(reg.player.rows >= pr && reg.player.columns >= pc);
    assert!(reg.enemy.rows >= er && reg.enemy.columns >= ec);
}

#[test]
fn slot_positions_mirror_between_teams() {
    let mut reg = SlotRegistry::new();
    reg.reset();
    // The initial grids are identical cell for cell; compare positions.
    let players: Vec<_> = reg.slots.iter().filter(|s| s.team == Team::Player).collect();
    let enemies: Vec<_> = reg.slots.iter().filter(|s| s.team == Team::Enemy).collect();
    assert_eq!(players.len(), enemies.len());
    for p in &players {
        let e = enemies
            .iter()
            .find(|e| e.row == p.row && e.column == p.column)
            .expect("matching enemy cell");
        assert_eq!(p.x, -e.x);
        assert_eq!(p.y, e.y);
    }
}
