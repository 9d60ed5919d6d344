//! Battlefield layout: each team owns a grid of squad slots, mirrored
//! across the arena's centre line. The grid only ever grows (one row or one
//! column at a time), except at a full reset, and every slot's world
//! position follows one shared row/column formula.

use vstd::prelude::*;
use crate::squad::SquadBundle;
use crate::team::Team;

verus! {

/// Fixed-point coordinate sub-units per arena length unit, chosen so the
/// column width and row height below are whole numbers.
pub const COORD_SCALE: i64 = 24;

pub const ARENA_WIDTH: i64 = 500 * COORD_SCALE;

pub const ARENA_HEIGHT: i64 = 300 * COORD_SCALE;

/// Gap between the two territories.
pub const TEAM_GAP: i64 = 75 * COORD_SCALE;

pub const MAX_ROWS: usize = 5;

pub const MAX_COLUMNS: usize = 3;

pub const INITIAL_ROWS: usize = 3;

pub const INITIAL_COLUMNS: usize = 1;

/// Half the arena width minus half the team gap.
pub const TERRITORY_WIDTH: i64 = 5100;

/// The territory width split over the maximum column count.
pub const COLUMN_WIDTH: i64 = 1700;

/// The arena height split over the maximum row count.
pub const ROW_HEIGHT: i64 = 1440;

/// Row and column indices stay small enough for the position formula to
/// stay inside the slot position bounds.
pub const GRID_LIMIT: usize = 0x1000;

/// The unmirrored world position of the slot at `(row, column)`: both teams
/// share this formula, and the Player side negates x.
pub open spec fn slot_coords_spec(row: int, column: int) -> (int, int) {
    (
        column * COLUMN_WIDTH + COLUMN_WIDTH / 2,
        row * ROW_HEIGHT + ROW_HEIGHT / 2 - ARENA_HEIGHT / 2,
    )
}

/// The world x of `(row, column)` for `team`: negated for the Player side,
/// so the two teams' grids mirror each other exactly.
pub open spec fn slot_world_x(team: Team, row: int, column: int) -> int {
    if team == Team::Player {
        -slot_coords_spec(row, column).0
    } else {
        slot_coords_spec(row, column).0
    }
}

pub open spec fn slot_world_y(row: int, column: int) -> int {
    slot_coords_spec(row, column).1
}

/// Slot positions of Player and Enemy for the same `(row, column)` are
/// mirror images: x exactly negated, while y does not depend on the team at
/// all.
pub proof fn lemma_slot_mirror(row: int, column: int)
    ensures
        slot_world_x(Team::Player, row, column) == -slot_world_x(Team::Enemy, row, column),
{
}

/// Computes the shared (unmirrored) world position of a slot.
pub fn slot_coords(row: usize, column: usize) -> (r: (i64, i64))
    requires
        row <= GRID_LIMIT,
        column <= GRID_LIMIT,
    ensures
        r.0 as int == slot_coords_spec(row as int, column as int).0,
        r.1 as int == slot_coords_spec(row as int, column as int).1,
        0 < r.0 <= crate::squad::SLOT_POS_LIMIT,
        -crate::squad::SLOT_POS_LIMIT <= r.1 <= crate::squad::SLOT_POS_LIMIT,
{
    let x = column as i64 * COLUMN_WIDTH + COLUMN_WIDTH / 2;
    let y = row as i64 * ROW_HEIGHT + ROW_HEIGHT / 2 - ARENA_HEIGHT / 2;
    proof {
        assert(0 <= column as i64 * COLUMN_WIDTH <= 0x1000 * 1700) by (nonlinear_arith)
            requires
                0 <= column as i64 <= 0x1000,
                COLUMN_WIDTH == 1700,
        ;
        assert(0 <= row as i64 * ROW_HEIGHT <= 0x1000 * 1440) by (nonlinear_arith)
            requires
                0 <= row as i64 <= 0x1000,
                ROW_HEIGHT == 1440,
        ;
    }
    (x, y)
}

/// How many rows and columns of slots a team has unlocked.
#[derive(Clone, Copy, Debug, PartialEq, Eq, Structural)]
pub struct UnlockedSlots {
    pub rows: usize,
    pub columns: usize,
}

impl Default for UnlockedSlots {
    fn default() -> (r: Self)
        ensures
            r == (UnlockedSlots { rows: 0, columns: 0 }),
    {
        UnlockedSlots { rows: 0, columns: 0 }
    }
}

/// One placement cell in a team's grid; it may currently hold a squad.
#[derive(Clone, Copy, Debug)]
pub struct Slot {
    pub team: Team,
    pub row: usize,
    pub column: usize,
    pub x: i64,
    pub y: i64,
    pub squad: Option<SquadBundle>,
}

/// A slot is well formed when its world position follows the shared
/// formula for its grid cell, its indices are 1-based and bounded, and any
/// squad it holds respects the descriptor size cap.
pub open spec fn wf_slot(s: Slot) -> bool {
    &&& 1 <= s.row <= GRID_LIMIT
    &&& 1 <= s.column <= GRID_LIMIT
    &&& s.x as int == slot_world_x(s.team, s.row as int, s.column as int)
    &&& s.y as int == slot_world_y(s.row as int, s.column as int)
    &&& match s.squad {
        Some(sq) => sq.count <= crate::squad::MAX_SQUAD_DESC_COUNT,
        None => true,
    }
}

/// The slot freshly created for `team` at `(row, column)`: empty, placed by
/// the shared formula.
pub open spec fn mk_slot(team: Team, row: int, column: int) -> Slot {
    Slot {
        team,
        row: row as usize,
        column: column as usize,
        x: slot_world_x(team, row, column) as i64,
        y: slot_world_y(row, column) as i64,
        squad: None,
    }
}

/// Whether a slot is an open (squadless) slot of `team`.
pub open spec fn is_open_slot(s: Slot, team: Team) -> bool {
    s.team == team && s.squad is None
}

/// How many of the first `n` slots are open slots of `team`.
pub open spec fn count_open_to(slots: Seq<Slot>, team: Team, n: int) -> int
    decreases n,
{
    if n <= 0 {
        0
    } else {
        count_open_to(slots, team, n - 1) + if 0 <= n - 1 < slots.len() && is_open_slot(
            slots[n - 1],
            team,
        ) {
            1int
        } else {
            0int
        }
    }
}

/// The number of open slots of `team`.
pub open spec fn count_open(slots: Seq<Slot>, team: Team) -> int {
    count_open_to(slots, team, slots.len() as int)
}

/// A positive open count means an open slot exists, and conversely.
pub proof fn lemma_count_open_members(slots: Seq<Slot>, team: Team, n: int)
    requires
        0 <= n <= slots.len(),
    ensures
        count_open_to(slots, team, n) > 0 <==> exists|i: int|
            0 <= i < n && is_open_slot(#[trigger] slots[i], team),
        count_open_to(slots, team, n) >= 0,
    decreases n,
{
    if n > 0 {
        lemma_count_open_members(slots, team, n - 1);
    }
}

/// Filling one open slot of `team` lowers its open count by one and leaves
/// the other team's count alone.
pub proof fn lemma_count_open_update(slots: Seq<Slot>, team: Team, i: int, s2: Slot, n: int)
    requires
        0 <= i < slots.len(),
        0 <= n <= slots.len(),
        is_open_slot(slots[i], team),
        !is_open_slot(s2, team),
        s2.team == slots[i].team,
    ensures
        i < n ==> count_open_to(slots.update(i, s2), team, n) == count_open_to(slots, team, n) - 1,
        i >= n ==> count_open_to(slots.update(i, s2), team, n) == count_open_to(slots, team, n),
        count_open_to(slots.update(i, s2), team.opponent_spec(), n) == count_open_to(
            slots,
            team.opponent_spec(),
            n,
        ),
    decreases n,
{
    if n > 0 {
        lemma_count_open_update(slots, team, i, s2, n - 1);
        if n - 1 != i {
            assert(slots.update(i, s2)[n - 1] == slots[n - 1]);
        } else {
            assert(slots.update(i, s2)[n - 1] == s2);
            assert(!is_open_slot(s2, team.opponent_spec()));
            assert(!is_open_slot(slots[n - 1], team.opponent_spec()));
        }
    }
}


/// Slots identical over a prefix have the same open count over it.
proof fn lemma_count_open_prefix(s1: Seq<Slot>, s2: Seq<Slot>, team: Team, n: int)
    requires
        0 <= n <= s1.len(),
        n <= s2.len(),
        forall|j: int| 0 <= j < n ==> s1[j] == s2[j],
    ensures
        count_open_to(s1, team, n) == count_open_to(s2, team, n),
    decreases n,
{
    if n > 0 {
        lemma_count_open_prefix(s1, s2, team, n - 1);
    }
}

/// Open counts add up over concatenation.
pub proof fn lemma_count_open_append(a: Seq<Slot>, b: Seq<Slot>, team: Team)
    ensures
        count_open(a + b, team) == count_open(a, team) + count_open(b, team),
    decreases b.len(),
{
    if b.len() == 0 {
        assert(a + b =~= a);
        lemma_count_open_prefix(a + b, a, team, a.len() as int);
    } else {
        lemma_count_open_append(a, b.drop_last(), team);
        let s = a + b;
        let s1 = a + b.drop_last();
        assert(forall|j: int| 0 <= j < s.len() - 1 ==> s[j] == s1[j]);
        lemma_count_open_prefix(s, s1, team, s.len() as int - 1);
        lemma_count_open_prefix(b, b.drop_last(), team, b.len() as int - 1);
        assert(s[s.len() - 1] == b[b.len() - 1]);
    }
}

/// A block of slots that are all open for `team` counts fully for it, and
/// not at all for the other side.
pub proof fn lemma_count_open_uniform(b: Seq<Slot>, team: Team, n: int)
    requires
        0 <= n <= b.len(),
        forall|j: int| 0 <= j < b.len() ==> is_open_slot(#[trigger] b[j], team),
    ensures
        count_open_to(b, team, n) == n,
        count_open_to(b, team.opponent_spec(), n) == 0,
    decreases n,
{
    if n > 0 {
        lemma_count_open_uniform(b, team, n - 1);
        assert(is_open_slot(b[n - 1], team));
        assert(!is_open_slot(b[n - 1], team.opponent_spec()));
    }
}

/// The slots of one team's freshly built initial grid, row-major over the
/// configured initial rows and columns, all empty.
pub open spec fn initial_team_slots(team: Team) -> Seq<Slot> {
    Seq::new(
        (INITIAL_ROWS * INITIAL_COLUMNS) as nat,
        |j: int|
            mk_slot(
                team,
                j / (INITIAL_COLUMNS as int) + 1,
                j % (INITIAL_COLUMNS as int) + 1,
            ),
    )
}

/// A well-formed slot's position sits well inside the spawner's slot
/// position bounds.
pub proof fn lemma_wf_slot_pos_bounds(s: Slot)
    requires
        wf_slot(s),
    ensures
        -crate::squad::SLOT_POS_LIMIT <= s.x <= crate::squad::SLOT_POS_LIMIT,
        -crate::squad::SLOT_POS_LIMIT <= s.y <= crate::squad::SLOT_POS_LIMIT,
{
    assert(0 <= (s.column as int) * COLUMN_WIDTH <= 0x1000 * 1700) by (nonlinear_arith)
        requires
            0 <= s.column as int <= 0x1000,
            COLUMN_WIDTH == 1700,
    ;
    assert(0 <= (s.row as int) * ROW_HEIGHT <= 0x1000 * 1440) by (nonlinear_arith)
        requires
            0 <= s.row as int <= 0x1000,
            ROW_HEIGHT == 1440,
    ;
}

/// A freshly made slot is well formed, with the fields it was made from.
pub proof fn lemma_mk_slot_wf(team: Team, row: int, column: int)
    requires
        1 <= row <= GRID_LIMIT,
        1 <= column <= GRID_LIMIT,
    ensures
        wf_slot(mk_slot(team, row, column)),
        mk_slot(team, row, column).team == team,
        mk_slot(team, row, column).row == row,
        mk_slot(team, row, column).column == column,
        mk_slot(team, row, column).squad is None,
{
    assert(0 <= column * COLUMN_WIDTH <= 0x1000 * 1700) by (nonlinear_arith)
        requires
            0 <= column <= 0x1000,
            COLUMN_WIDTH == 1700,
    ;
    assert(0 <= row * ROW_HEIGHT <= 0x1000 * 1440) by (nonlinear_arith)
        requires
            0 <= row <= 0x1000,
            ROW_HEIGHT == 1440,
    ;
}

/// The registry of battlefield slots: per-team unlocked grid sizes and the
/// slots themselves.
pub struct SlotRegistry {
    pub player: UnlockedSlots,
    pub enemy: UnlockedSlots,
    pub slots: Vec<Slot>,
}

impl SlotRegistry {
    /// The unlocked grid size of `team`.
    pub open spec fn unlocked_spec(self, team: Team) -> UnlockedSlots {
        if team == Team::Player {
            self.player
        } else {
            self.enemy
        }
    }

    /// Every slot is well formed and sits inside its team's unlocked grid.
    pub open spec fn wf(self) -> bool {
        &&& forall|i: int| 0 <= i < self.slots@.len() ==> wf_slot(#[trigger] self.slots@[i])
        &&& forall|i: int|
            0 <= i < self.slots@.len() ==> (#[trigger] self.slots@[i]).row <= self.unlocked_spec(
                self.slots@[i].team,
            ).rows && self.slots@[i].column <= self.unlocked_spec(self.slots@[i].team).columns
        &&& self.player.rows <= GRID_LIMIT
        &&& self.player.columns <= GRID_LIMIT
        &&& self.enemy.rows <= GRID_LIMIT
        &&& self.enemy.columns <= GRID_LIMIT
    }

    /// An empty registry: no rows or columns unlocked, no slots.
    pub fn new() -> (r: SlotRegistry)
        ensures
            r.wf(),
            r.player == (UnlockedSlots { rows: 0, columns: 0 }),
            r.enemy == (UnlockedSlots { rows: 0, columns: 0 }),
            r.slots@.len() == 0,
    {
        SlotRegistry {
            player: UnlockedSlots { rows: 0, columns: 0 },
            enemy: UnlockedSlots { rows: 0, columns: 0 },
            slots: Vec::new(),
        }
    }

    /// The unlocked grid size of `team`.
    pub fn unlocked(&self, team: Team) -> (r: UnlockedSlots)
        ensures
            r == self.unlocked_spec(team),
    {
        match team {
            Team::Player => self.player,
            Team::Enemy => self.enemy,
        }
    }

    /// Unlocks one more column for `team` and creates one new empty slot
    /// per already-unlocked row, at the new column index, positioned by the
    /// shared formula (mirrored in x for the Player team). Never removes a
    /// slot, and never shrinks either team's grid.
    pub fn add_column(&mut self, team: Team)
        requires
            old(self).wf(),
            old(self).unlocked_spec(team).columns < GRID_LIMIT,
        ensures
            final(self).wf(),
            final(self).unlocked_spec(team).columns == old(self).unlocked_spec(team).columns + 1,
            final(self).unlocked_spec(team).rows == old(self).unlocked_spec(team).rows,
            final(self).unlocked_spec(team.opponent_spec()) == old(self).unlocked_spec(
                team.opponent_spec(),
            ),
            final(self).slots@ == old(self).slots@ + Seq::new(
                old(self).unlocked_spec(team).rows as nat,
                |r: int| mk_slot(team, r + 1, old(self).unlocked_spec(team).columns + 1),
            ),
            count_open(final(self).slots@, team) == count_open(old(self).slots@, team) + old(
                self,
            ).unlocked_spec(team).rows,
            count_open(final(self).slots@, team.opponent_spec()) == count_open(
                old(self).slots@,
                team.opponent_spec(),
            ),
    {
        let rows = self.unlocked(team).rows;
        let new_column = self.unlocked(team).columns + 1;
        match team {
            Team::Player => {
                self.player.columns = new_column;
            },
            Team::Enemy => {
                self.enemy.columns = new_column;
            },
        }

        let ghost base = self.slots@.len() as int;
        let ghost player_now = self.player;
        let ghost enemy_now = self.enemy;
        let mut r: usize = 1;
        while r <= rows
            invariant
                1 <= r <= rows + 1,
                rows <= GRID_LIMIT,
                1 <= new_column <= GRID_LIMIT,
                self.player == player_now,
                self.enemy == enemy_now,
                self.slots@.len() == base + r - 1,
                base == old(self).slots@.len() as int,
                self.slots@.subrange(0, base) == old(self).slots@,
                forall|j: int|
                    base <= j < self.slots@.len() ==> #[trigger] self.slots@[j] == mk_slot(
                        team,
                        j - base + 1,
                        new_column as int,
                    ),
            decreases rows + 1 - r,
        {
            let (sx, sy) = slot_coords(r, new_column);
            let x = match team {
                Team::Player => -sx,
                Team::Enemy => sx,
            };
            let slot = Slot { team, row: r, column: new_column, x, y: sy, squad: None };
            self.slots.push(slot);
            proof {
                lemma_mk_slot_wf(team, r as int, new_column as int);
                assert(slot == mk_slot(team, r as int, new_column as int));
                assert(self.slots@.subrange(0, base) =~= old(self).slots@);
            }
            r = r + 1;
        }
        proof {
            let block = Seq::new(rows as nat, |r: int| mk_slot(team, r + 1, new_column as int));
            assert(self.slots@ =~= old(self).slots@ + block);
            lemma_count_open_append(old(self).slots@, block, team);
            lemma_count_open_append(old(self).slots@, block, team.opponent_spec());
            assert forall|k: int| 0 <= k < block.len() implies is_open_slot(
                #[trigger] block[k],
                team,
            ) by {}
            lemma_count_open_uniform(block, team, block.len() as int);
            assert(team.opponent_spec().opponent_spec() == team);
            assert forall|i: int| 0 <= i < self.slots@.len() implies wf_slot(
                #[trigger] self.slots@[i],
            ) && self.slots@[i].row <= self.unlocked_spec(self.slots@[i].team).rows
                && self.slots@[i].column <= self.unlocked_spec(self.slots@[i].team).columns by {
                if i < base {
                    assert(self.slots@[i] == old(self).slots@[i]);
                } else {
                    lemma_mk_slot_wf(team, i - base + 1, new_column as int);
                }
            }
        }
    }

    /// Unlocks one more row for `team` and creates one new empty slot per
    /// already-unlocked column, at the new row index, positioned by the
    /// shared formula (mirrored in x for the Player team). Never removes a
    /// slot, and never shrinks either team's grid.
    pub fn add_row(&mut self, team: Team)
        requires
            old(self).wf(),
            old(self).unlocked_spec(team).rows < GRID_LIMIT,
        ensures
            final(self).wf(),
            final(self).unlocked_spec(team).rows == old(self).unlocked_spec(team).rows + 1,
            final(self).unlocked_spec(team).columns == old(self).unlocked_spec(team).columns,
            final(self).unlocked_spec(team.opponent_spec()) == old(self).unlocked_spec(
                team.opponent_spec(),
            ),
            final(self).slots@ == old(self).slots@ + Seq::new(
                old(self).unlocked_spec(team).columns as nat,
                |c: int| mk_slot(team, old(self).unlocked_spec(team).rows + 1, c + 1),
            ),
            count_open(final(self).slots@, team) == count_open(old(self).slots@, team) + old(
                self,
            ).unlocked_spec(team).columns,
            count_open(final(self).slots@, team.opponent_spec()) == count_open(
                old(self).slots@,
                team.opponent_spec(),
            ),
    {
        let columns = self.unlocked(team).columns;
        let new_row = self.unlocked(team).rows + 1;
        match team {
            Team::Player => {
                self.player.rows = new_row;
            },
            Team::Enemy => {
                self.enemy.rows = new_row;
            },
        }

        let ghost base = self.slots@.len() as int;
        let ghost player_now = self.player;
        let ghost enemy_now = self.enemy;
        let mut c: usize = 1;
        while c <= columns
            invariant
                1 <= c <= columns + 1,
                columns <= GRID_LIMIT,
                1 <= new_row <= GRID_LIMIT,
                self.player == player_now,
                self.enemy == enemy_now,
                self.slots@.len() == base + c - 1,
                base == old(self).slots@.len() as int,
                self.slots@.subrange(0, base) == old(self).slots@,
                forall|j: int|
                    base <= j < self.slots@.len() ==> #[trigger] self.slots@[j] == mk_slot(
                        team,
                        new_row as int,
                        j - base + 1,
                    ),
            decreases columns + 1 - c,
        {
            let (sx, sy) = slot_coords(new_row, c);
            let x = match team {
                Team::Player => -sx,
                Team::Enemy => sx,
            };
            let slot = Slot { team, row: new_row, column: c, x, y: sy, squad: None };
            self.slots.push(slot);
            proof {
                lemma_mk_slot_wf(team, new_row as int, c as int);
                assert(slot == mk_slot(team, new_row as int, c as int));
                assert(self.slots@.subrange(0, base) =~= old(self).slots@);
            }
            c = c + 1;
        }
        proof {
            let block = Seq::new(columns as nat, |c: int| mk_slot(team, new_row as int, c + 1));
            assert(self.slots@ =~= old(self).slots@ + block);
            lemma_count_open_append(old(self).slots@, block, team);
            lemma_count_open_append(old(self).slots@, block, team.opponent_spec());
            assert forall|k: int| 0 <= k < block.len() implies is_open_slot(
                #[trigger] block[k],
                team,
            ) by {}
            lemma_count_open_uniform(block, team, block.len() as int);
            assert(team.opponent_spec().opponent_spec() == team);
            assert forall|i: int| 0 <= i < self.slots@.len() implies wf_slot(
                #[trigger] self.slots@[i],
            ) && self.slots@[i].row <= self.unlocked_spec(self.slots@[i].team).rows
                && self.slots@[i].column <= self.unlocked_spec(self.slots@[i].team).columns by {
                if i < base {
                    assert(self.slots@[i] == old(self).slots@[i]);
                } else {
                    lemma_mk_slot_wf(team, new_row as int, i - base + 1);
                }
            }
        }
    }

    /// Unlocks the configured initial grid for `team`: the initial column
    /// count first, then the initial row count, exactly as the incremental
    /// operations would.
    fn unlock_initial(&mut self, team: Team)
        requires
            old(self).wf(),
            old(self).unlocked_spec(team) == (UnlockedSlots { rows: 0, columns: 0 }),
        ensures
            final(self).wf(),
            final(self).unlocked_spec(team) == (UnlockedSlots {
                rows: INITIAL_ROWS,
                columns: INITIAL_COLUMNS,
            }),
            final(self).unlocked_spec(team.opponent_spec()) == old(self).unlocked_spec(
                team.opponent_spec(),
            ),
            final(self).slots@.len() == old(self).slots@.len() + INITIAL_ROWS * INITIAL_COLUMNS,
            final(self).slots@.subrange(0, old(self).slots@.len() as int) == old(self).slots@,
            forall|i: int|
                old(self).slots@.len() <= i < final(self).slots@.len() ==> (
                #[trigger] final(self).slots@[i]).squad is None,
            count_open(final(self).slots@, team) == count_open(old(self).slots@, team)
                + INITIAL_ROWS * INITIAL_COLUMNS,
            count_open(final(self).slots@, team.opponent_spec()) == count_open(
                old(self).slots@,
                team.opponent_spec(),
            ),
            final(self).slots@ == old(self).slots@ + initial_team_slots(team),
    {
        let ghost base = self.slots@.len() as int;
        let ghost other = self.unlocked_spec(team.opponent_spec());
        let mut cc: usize = 0;
        while cc < INITIAL_COLUMNS
            invariant
                0 <= cc <= INITIAL_COLUMNS,
                self.wf(),
                self.unlocked_spec(team) == (UnlockedSlots { rows: 0, columns: cc }),
                self.unlocked_spec(team.opponent_spec()) == other,
                self.slots@ == old(self).slots@,
            decreases INITIAL_COLUMNS - cc,
        {
            let ghost pre = self.slots@;
            self.add_column(team);
            proof {
                assert(self.slots@ =~= pre);
            }
            cc = cc + 1;
        }
        let mut rr: usize = 0;
        while rr < INITIAL_ROWS
            invariant
                0 <= rr <= INITIAL_ROWS,
                self.wf(),
                self.unlocked_spec(team) == (UnlockedSlots { rows: rr, columns: INITIAL_COLUMNS }),
                self.unlocked_spec(team.opponent_spec()) == other,
                base == old(self).slots@.len() as int,
                self.slots@.len() == base + rr * INITIAL_COLUMNS,
                self.slots@.subrange(0, base) == old(self).slots@,
                forall|i: int|
                    base <= i < self.slots@.len() ==> (#[trigger] self.slots@[i]).squad is None,
                self.slots@ == old(self).slots@ + Seq::new(
                    (rr * INITIAL_COLUMNS) as nat,
                    |j: int|
                        mk_slot(
                            team,
                            j / (INITIAL_COLUMNS as int) + 1,
                            j % (INITIAL_COLUMNS as int) + 1,
                        ),
                ),
                count_open(self.slots@, team) == count_open(old(self).slots@, team) + rr
                    * INITIAL_COLUMNS,
                count_open(self.slots@, team.opponent_spec()) == count_open(
                    old(self).slots@,
                    team.opponent_spec(),
                ),
            decreases INITIAL_ROWS - rr,
        {
            let ghost pre = self.slots@;
            self.add_row(team);
            proof {
                assert(self.slots@.subrange(0, base) =~= old(self).slots@);
                assert(self.slots@.len() == base + rr * INITIAL_COLUMNS + INITIAL_COLUMNS);
                assert(rr * INITIAL_COLUMNS + INITIAL_COLUMNS == (rr + 1) * INITIAL_COLUMNS)
                    by (nonlinear_arith);
                assert(count_open(self.slots@, team) == count_open(old(self).slots@, team) + rr
                    * INITIAL_COLUMNS + INITIAL_COLUMNS);
                assert forall|i: int| base <= i < self.slots@.len() implies (
                #[trigger] self.slots@[i]).squad is None by {
                    if i < pre.len() {
                        assert(self.slots@[i] == pre[i]);
                    }
                }
                let ic = INITIAL_COLUMNS as int;
                let grown = Seq::new(
                    ((rr + 1) * INITIAL_COLUMNS) as nat,
                    |j: int| mk_slot(team, j / ic + 1, j % ic + 1),
                );
                let row_block = Seq::new(
                    INITIAL_COLUMNS as nat,
                    |c: int| mk_slot(team, rr as int + 1, c + 1),
                );
                assert(self.slots@ == pre + row_block);
                assert forall|m: int| 0 <= m < self.slots@.len() implies self.slots@[m] == (old(
                    self,
                ).slots@ + grown)[m] by {
                    if m >= base {
                        let j = m - base;
                        if j < rr * ic {
                            assert(self.slots@[m] == pre[m]);
                        } else {
                            let c = j - rr * ic;
                            assert(0 <= c < ic) by (nonlinear_arith)
                                requires
                                    rr as int * ic <= j < (rr as int + 1) * ic,
                                    c == j - rr as int * ic,
                            ;
                            assert(self.slots@[m] == row_block[c]);
                            vstd::arithmetic::div_mod::lemma_fundamental_div_mod_converse(
                                j,
                                ic,
                                rr as int,
                                c,
                            );
                            assert(grown[j] == mk_slot(team, rr as int + 1, c + 1));
                        }
                    }
                }
                assert(self.slots@ =~= old(self).slots@ + grown);
            }
            rr = rr + 1;
        }
    }

    /// Despawns all slots for both teams and rebuilds the configured
    /// initial grid for each.
    pub fn reset(&mut self)
        ensures
            final(self).wf(),
            final(self).player == (UnlockedSlots {
                rows: INITIAL_ROWS,
                columns: INITIAL_COLUMNS,
            }),
            final(self).enemy == (UnlockedSlots { rows: INITIAL_ROWS, columns: INITIAL_COLUMNS }),
            final(self).slots@.len() == 2 * INITIAL_ROWS * INITIAL_COLUMNS,
            forall|i: int|
                0 <= i < final(self).slots@.len() ==> (#[trigger] final(self).slots@[i]).squad
                    is None,
            count_open(final(self).slots@, Team::Player) == INITIAL_ROWS * INITIAL_COLUMNS,
            count_open(final(self).slots@, Team::Enemy) == INITIAL_ROWS * INITIAL_COLUMNS,
            // One slot per cell of each team's initial grid, in row-major
            // order: the Player block first, then the Enemy block.
            final(self).slots@ == initial_team_slots(Team::Player) + initial_team_slots(
                Team::Enemy,
            ),
    {
        *self = SlotRegistry::new();
        self.unlock_initial(Team::Player);
        let ghost mid = self.slots@;
        self.unlock_initial(Team::Enemy);
        proof {
            assert forall|i: int| 0 <= i < self.slots@.len() implies (
            #[trigger] self.slots@[i]).squad is None by {
                if i < mid.len() {
                    assert(self.slots@[i] == self.slots@.subrange(0, mid.len() as int)[i]);
                }
            }
            assert(mid =~= initial_team_slots(Team::Player));
            assert(self.slots@ =~= initial_team_slots(Team::Player) + initial_team_slots(
                Team::Enemy,
            ));
        }
    }
}

} // verus!
