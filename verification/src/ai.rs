//! The per-tick unit brain: targeting (each living unit picks the nearest
//! living enemy), movement (advance toward the stored goal, scaled by the
//! team speed modifier) and combat (cooldown-gated damage, death handling).
//!
//! The three phases run in this order each tick; movement uses the goal
//! chosen by targeting in the same tick, and combat uses the post-movement
//! positions.

use vstd::prelude::*;
use crate::math::dist2;
use crate::team::Team;
use crate::units::{
    is_living_member, wf_unit, wf_units, Movement, MovementStyle, Unit, POS_LIMIT, STAT_LIMIT,
};

verus! {

/// Squared distance between units `i` and `j`.
pub open spec fn unit_dist2(units: Seq<Unit>, i: int, j: int) -> int {
    dist2(units[i].x as int, units[i].y as int, units[j].x as int, units[j].y as int)
}

/// Whether unit `j` is a living opponent of unit `i`.
pub open spec fn is_living_enemy(units: Seq<Unit>, i: int, j: int) -> bool {
    is_living_member(units, units[i].team.opponent_spec(), j)
}

pub open spec fn has_living_enemy(units: Seq<Unit>, i: int) -> bool {
    exists|j: int| is_living_enemy(units, i, j)
}

/// Unit `t` is the target unit `i` picks: a living opponent at minimal
/// squared distance, and the first such in table order (ties go to the
/// lowest index).
pub open spec fn is_nearest_enemy(units: Seq<Unit>, i: int, t: int) -> bool {
    &&& is_living_enemy(units, i, t)
    &&& forall|j: int|
        is_living_enemy(units, i, j) ==> unit_dist2(units, i, t) <= unit_dist2(units, i, j)
    &&& forall|j: int|
        is_living_enemy(units, i, j) && j < t ==> unit_dist2(units, i, t) < unit_dist2(
            units,
            i,
            j,
        )
}

/// The chosen target is deterministic: only one unit can be the nearest
/// enemy, even when several are equidistant, because ties break to the
/// lowest index.
pub proof fn lemma_nearest_enemy_unique(units: Seq<Unit>, i: int, t1: int, t2: int)
    requires
        is_nearest_enemy(units, i, t1),
        is_nearest_enemy(units, i, t2),
    ensures
        t1 == t2,
{
    if t1 < t2 {
        assert(unit_dist2(units, i, t2) < unit_dist2(units, i, t1));
        assert(unit_dist2(units, i, t1) <= unit_dist2(units, i, t2));
    }
    if t2 < t1 {
        assert(unit_dist2(units, i, t1) < unit_dist2(units, i, t2));
        assert(unit_dist2(units, i, t2) <= unit_dist2(units, i, t1));
    }
}

/// Unit `i` retargeted at unit `t`: the target recorded, and the movement
/// goal set to `t`'s current position, either to walk straight onto it or
/// to stop at attack range, by the unit's movement style.
pub open spec fn retargeted(units: Seq<Unit>, i: int, t: int) -> Unit {
    let u = units[i];
    let tv = units[t];
    let goal = match u.movement_style {
        MovementStyle::Direct => Movement::Direct { x: tv.x, y: tv.y },
        MovementStyle::WithinRange => Movement::WithinRange { x: tv.x, y: tv.y, range: u.range },
    };
    Unit { target: Some(t as usize), movement: Some(goal), ..u }
}

/// Unit `i` gone idle: no target, no movement goal.
pub open spec fn target_cleared(units: Seq<Unit>, i: int) -> Unit {
    Unit { target: None, movement: None, ..units[i] }
}

/// Unit `i` after the targeting phase: dead units are untouched, a living
/// unit with living enemies aims at its (unique) nearest one, and a living
/// unit without goes idle.
pub open spec fn targeted_unit(units: Seq<Unit>, i: int) -> Unit {
    if !units[i].alive {
        units[i]
    } else if has_living_enemy(units, i) {
        retargeted(units, i, choose|t: int| is_nearest_enemy(units, i, t))
    } else {
        target_cleared(units, i)
    }
}

/// The whole table after the targeting phase, every decision read from the
/// same pre-phase state.
pub open spec fn targeted(units: Seq<Unit>) -> Seq<Unit> {
    Seq::new(units.len(), |i: int| targeted_unit(units, i))
}

/// Computes the squared distance between two points within the position
/// bounds.
fn exec_dist2(ax: i64, ay: i64, bx: i64, by: i64) -> (r: u64)
    requires
        -POS_LIMIT <= ax <= POS_LIMIT,
        -POS_LIMIT <= ay <= POS_LIMIT,
        -POS_LIMIT <= bx <= POS_LIMIT,
        -POS_LIMIT <= by <= POS_LIMIT,
    ensures
        r as int == dist2(ax as int, ay as int, bx as int, by as int),
{
    let dx: i64 = ax - bx;
    let dy: i64 = ay - by;
    proof {
        assert((dx as int) * (dx as int) <= 0x8000_0000 * 0x8000_0000 && 0 <= (dx as int) * (
        dx as int)) by (nonlinear_arith)
            requires
                -0x8000_0000 <= dx as int <= 0x8000_0000,
        ;
        assert((dy as int) * (dy as int) <= 0x8000_0000 * 0x8000_0000 && 0 <= (dy as int) * (
        dy as int)) by (nonlinear_arith)
            requires
                -0x8000_0000 <= dy as int <= 0x8000_0000,
        ;
    }
    let xx: i128 = (dx as i128) * (dx as i128);
    let yy: i128 = (dy as i128) * (dy as i128);
    (xx + yy) as u64
}

/// Computes the squared distance between two units.
fn exec_unit_dist2(a: &Unit, b: &Unit) -> (r: u64)
    requires
        -POS_LIMIT <= a.x <= POS_LIMIT,
        -POS_LIMIT <= a.y <= POS_LIMIT,
        -POS_LIMIT <= b.x <= POS_LIMIT,
        -POS_LIMIT <= b.y <= POS_LIMIT,
    ensures
        r as int == dist2(a.x as int, a.y as int, b.x as int, b.y as int),
{
    exec_dist2(a.x, a.y, b.x, b.y)
}

/// Finds the nearest living enemy of unit `i`: the minimal squared
/// distance, first index winning ties; `None` when no living enemy exists.
pub fn nearest_living_enemy(units: &Vec<Unit>, i: usize) -> (r: Option<usize>)
    requires
        wf_units(units@),
        i < units@.len(),
    ensures
        match r {
            Some(t) => is_nearest_enemy(units@, i as int, t as int),
            None => !has_living_enemy(units@, i as int),
        },
{
    let me = units[i];
    let mut best: Option<usize> = None;
    let mut best_d: u64 = 0;

    let mut j: usize = 0;
    while j < units.len()
        invariant
            wf_units(units@),
            i < units@.len(),
            0 <= j <= units@.len(),
            me == units@[i as int],
            match best {
                Some(t) => {
                    &&& t < j
                    &&& is_living_enemy(units@, i as int, t as int)
                    &&& best_d as int == unit_dist2(units@, i as int, t as int)
                    &&& forall|k: int|
                        is_living_enemy(units@, i as int, k) && k < j ==> best_d as int
                            <= unit_dist2(units@, i as int, k)
                    &&& forall|k: int|
                        is_living_enemy(units@, i as int, k) && k < t ==> (best_d as int)
                            < unit_dist2(units@, i as int, k)
                },
                None => forall|k: int| 0 <= k < j ==> !is_living_enemy(units@, i as int, k),
            },
        decreases units@.len() - j,
    {
        let other = units[j];
        if other.alive && !(other.team == me.team) {
            proof {
                assert(other.team == me.team.opponent_spec());
                assert(is_living_enemy(units@, i as int, j as int));
            }
            let d = exec_unit_dist2(&me, &other);
            let better = match best {
                None => true,
                Some(_) => d < best_d,
            };
            if better {
                best = Some(j);
                best_d = d;
            }
        } else {
            proof {
                assert(!is_living_enemy(units@, i as int, j as int));
            }
        }
        j = j + 1;
    }
    best
}

/// Targeting, run once per tick: every living unit picks the nearest living
/// enemy as its target and aims its movement goal at that enemy's current
/// position; a living unit with no living enemy goes idle. Dead units are
/// untouched, and all decisions read the state as it was when the tick
/// began.
pub fn set_target(units: &mut Vec<Unit>)
    requires
        wf_units(old(units)@),
    ensures
        final(units)@.len() == old(units)@.len(),
        wf_units(final(units)@),
        forall|i: int|
            0 <= i < old(units)@.len() && !old(units)@[i].alive ==> final(units)@[i] == old(
                units,
            )@[i],
        forall|i: int|
            0 <= i < old(units)@.len() && old(units)@[i].alive && !has_living_enemy(
                old(units)@,
                i,
            ) ==> final(units)@[i] == target_cleared(old(units)@, i),
        forall|i: int, t: int|
            0 <= i < old(units)@.len() && old(units)@[i].alive && is_nearest_enemy(
                old(units)@,
                i,
                t,
            ) ==> final(units)@[i] == retargeted(old(units)@, i, t),
        forall|i: int|
            0 <= i < old(units)@.len() && old(units)@[i].alive && has_living_enemy(
                old(units)@,
                i,
            ) ==> exists|t: int|
                #[trigger] is_nearest_enemy(old(units)@, i, t) && final(units)@[i] == retargeted(
                    old(units)@,
                    i,
                    t,
                ),
        final(units)@ == targeted(old(units)@),
{
    let n = units.len();
    let mut picks: Vec<Option<usize>> = Vec::new();
    let mut i: usize = 0;
    while i < n
        invariant
            wf_units(units@),
            n == units@.len(),
            0 <= i <= n,
            picks@.len() == i as int,
            forall|k: int|
                0 <= k < i as int ==> match #[trigger] picks@[k] {
                    Some(t) => is_nearest_enemy(units@, k, t as int),
                    None => !units@[k].alive || !has_living_enemy(units@, k),
                },
        decreases n - i,
    {
        if units[i].alive {
            picks.push(nearest_living_enemy(units, i));
        } else {
            // The pick of a dead unit is never applied; record idle.
            picks.push(None);
        }
        i = i + 1;
    }

    let ghost orig = units@;
    let mut i: usize = 0;
    while i < n
        invariant
            n == orig.len(),
            units@.len() == n,
            wf_units(orig),
            0 <= i <= n,
            picks@.len() == n,
            forall|k: int|
                0 <= k < n ==> match #[trigger] picks@[k] {
                    Some(t) => is_nearest_enemy(orig, k, t as int),
                    None => !orig[k].alive || !has_living_enemy(orig, k),
                },
            forall|k: int| i as int <= k < n ==> units@[k] == orig[k],
            forall|k: int|
                0 <= k < i as int && !orig[k].alive ==> #[trigger] units@[k] == orig[k],
            forall|k: int|
                0 <= k < i as int && orig[k].alive && !has_living_enemy(orig, k)
                    ==> #[trigger] units@[k] == target_cleared(orig, k),
            forall|k: int|
                0 <= k < i as int && orig[k].alive && picks@[k] is Some ==> #[trigger] units@[k]
                    == retargeted(orig, k, picks@[k].unwrap() as int),
            forall|k: int| 0 <= k < n ==> wf_unit(#[trigger] units@[k], n as int),
        decreases n - i,
    {
        let u = units[i];
        if u.alive {
            match picks[i] {
                Some(t) => {
                    let tv = units[t];
                    proof {
                        assert(is_nearest_enemy(orig, i as int, t as int));
                        if t as int >= i as int {
                            assert(units@[t as int] == orig[t as int]);
                        } else {
                            // An earlier unit was only retargeted or
                            // cleared; its position did not change.
                            assert(units@[t as int].x == orig[t as int].x && units@[t as int].y
                                == orig[t as int].y);
                        }
                    }
                    let goal = match u.movement_style {
                        MovementStyle::Direct => Movement::Direct { x: tv.x, y: tv.y },
                        MovementStyle::WithinRange => Movement::WithinRange {
                            x: tv.x,
                            y: tv.y,
                            range: u.range,
                        },
                    };
                    let updated = Unit { target: Some(t), movement: Some(goal), ..u };
                    units[i] = updated;
                    proof {
                        assert(units@[i as int] == retargeted(orig, i as int, t as int));
                    }
                },
                None => {
                    let updated = Unit { target: None, movement: None, ..u };
                    units[i] = updated;
                    proof {
                        assert(units@[i as int] == target_cleared(orig, i as int));
                    }
                },
            }
        }
        i = i + 1;
    }
    proof {
        assert forall|i: int, t: int|
            0 <= i < orig.len() && orig[i].alive && is_nearest_enemy(orig, i, t) implies units@[i]
            == retargeted(orig, i, t) by {
            assert(has_living_enemy(orig, i));
            let p = picks@[i];
            assert(p is Some);
            lemma_nearest_enemy_unique(orig, i, p.unwrap() as int, t);
        }
        assert forall|i: int|
            0 <= i < orig.len() && orig[i].alive && has_living_enemy(orig, i) implies exists|t: int|
            #[trigger] is_nearest_enemy(orig, i, t) && units@[i] == retargeted(
                orig,
                i,
                t,
            ) by {
            let p = picks@[i];
            assert(p is Some);
            assert(is_nearest_enemy(orig, i, p.unwrap() as int) && units@[i] == retargeted(
                orig,
                i,
                p.unwrap() as int,
            ));
        }
        assert forall|i: int| 0 <= i < orig.len() implies units@[i] == targeted_unit(
            orig,
            i,
        ) by {
            if orig[i].alive && has_living_enemy(orig, i) {
                let p = picks@[i];
                assert(p is Some);
                assert(is_nearest_enemy(orig, i, p.unwrap() as int));
                let t = choose|t: int| is_nearest_enemy(orig, i, t);
                lemma_nearest_enemy_unique(orig, i, t, p.unwrap() as int);
            }
        }
        assert(units@ =~= targeted(orig));
    }
}

/// Ticks are bounded in length so the displacement budget fits in the
/// machine integers.
pub const MAX_TICK_MS: u64 = 0x10_0000;

/// Team speed modifiers, in percent, are bounded for the same reason.
pub const SPEED_MOD_LIMIT: u64 = 0x1_0000;

/// The distance a unit may cover this tick: speed (units per second) times
/// the tick length in milliseconds times the team modifier in percent,
/// scaled back down, truncating.
pub open spec fn step_budget(speed: int, dt_ms: int, modifier_pct: int) -> int {
    speed * dt_ms * modifier_pct / 100_000
}

/// One axis of a move: the axis delta scaled by `step / len`, truncating
/// toward zero.
pub open spec fn axis_move(delta: int, step: int, len: int) -> int {
    if delta >= 0 {
        delta * step / len
    } else {
        -((-delta) * step / len)
    }
}

/// The unit walked toward `(tx, ty)` with displacement budget `step`: it
/// advances along the straight line by `step`, stopping exactly on the goal
/// rather than overshooting it; a unit already on its goal stays put.
pub open spec fn walk(u: Unit, tx: int, ty: int, step: int) -> Unit {
    let dx = tx - u.x;
    let dy = ty - u.y;
    let len = crate::math::sqrt_floor(dist2(u.x as int, u.y as int, tx, ty));
    if len <= 0 {
        u
    } else {
        let s = if step > len {
            len
        } else {
            step
        };
        Unit {
            x: (u.x + axis_move(dx, s, len)) as i64,
            y: (u.y + axis_move(dy, s, len)) as i64,
            ..u
        }
    }
}

/// How one unit moves in a tick: dead or goalless units stay put; a
/// within-range unit already at attack range of its goal stays put; anyone
/// else walks its displacement budget toward the goal.
pub open spec fn moved_unit(u: Unit, dt_ms: int, modifier_pct: int) -> Unit {
    if !u.alive {
        u
    } else {
        match u.movement {
            None => u,
            Some(Movement::Direct { x, y }) => walk(
                u,
                x as int,
                y as int,
                step_budget(u.movement_speed as int, dt_ms, modifier_pct),
            ),
            Some(Movement::WithinRange { x, y, range }) => {
                if dist2(u.x as int, u.y as int, x as int, y as int) <= (range as int) * (
                range as int) {
                    u
                } else {
                    walk(
                        u,
                        x as int,
                        y as int,
                        step_budget(u.movement_speed as int, dt_ms, modifier_pct),
                    )
                }
            },
        }
    }
}

/// The whole table after the movement phase: each unit moved by its team's
/// speed modifier.
pub open spec fn moved_units_seq(
    units: Seq<Unit>,
    dt_ms: int,
    player_pct: int,
    enemy_pct: int,
) -> Seq<Unit> {
    Seq::new(
        units.len(),
        |i: int|
            moved_unit(
                units[i],
                dt_ms,
                if units[i].team == Team::Player {
                    player_pct
                } else {
                    enemy_pct
                },
            ),
    )
}

/// Walks a unit toward a goal within the position bounds; the result moves
/// along the segment toward the goal and never leaves the bounds.
fn walk_toward(u: &Unit, tx: i64, ty: i64, step: u64) -> (r: Unit)
    requires
        -POS_LIMIT <= u.x <= POS_LIMIT,
        -POS_LIMIT <= u.y <= POS_LIMIT,
        -POS_LIMIT <= tx <= POS_LIMIT,
        -POS_LIMIT <= ty <= POS_LIMIT,
    ensures
        r == walk(*u, tx as int, ty as int, step as int),
        -POS_LIMIT <= r.x <= POS_LIMIT,
        -POS_LIMIT <= r.y <= POS_LIMIT,
{
    let d2 = exec_dist2(u.x, u.y, tx, ty);
    let len = crate::math::isqrt(d2);
    if len == 0 {
        proof {
            crate::math::lemma_sqrt_floor_exists(d2 as int);
        }
        return *u;
    }
    let s: u64 = if step > len {
        len
    } else {
        step
    };

    let dx: i64 = tx - u.x;
    let dy: i64 = ty - u.y;
    let adx: i64 = if dx >= 0 {
        dx
    } else {
        -dx
    };
    let ady: i64 = if dy >= 0 {
        dy
    } else {
        -dy
    };

    proof {
        lemma_axis_div_bounds(adx as int, s as int, len as int);
        lemma_axis_div_bounds(ady as int, s as int, len as int);
        assert(0 <= (adx as int) * (s as int) <= 0x8000_0000int * 0xffff_ffff_ffff_ffffint)
            by (nonlinear_arith)
            requires
                0 <= adx as int <= 0x8000_0000,
                0 <= s as int <= 0xffff_ffff_ffff_ffffint,
        ;
        assert(0 <= (ady as int) * (s as int) <= 0x8000_0000int * 0xffff_ffff_ffff_ffffint)
            by (nonlinear_arith)
            requires
                0 <= ady as int <= 0x8000_0000,
                0 <= s as int <= 0xffff_ffff_ffff_ffffint,
        ;
    }
    let mx_abs: u64 = ((adx as u128) * (s as u128) / (len as u128)) as u64;
    let my_abs: u64 = ((ady as u128) * (s as u128) / (len as u128)) as u64;
    let mx: i64 = if dx >= 0 {
        mx_abs as i64
    } else {
        -(mx_abs as i64)
    };
    let my: i64 = if dy >= 0 {
        my_abs as i64
    } else {
        -(my_abs as i64)
    };

    Unit { x: u.x + mx, y: u.y + my, ..*u }
}

/// Scaling a non-negative axis delta by `step / len` with `step <= len`
/// never exceeds the delta itself.
proof fn lemma_axis_div_bounds(delta: int, s: int, len: int)
    requires
        0 <= delta,
        0 < len,
        0 <= s <= len,
    ensures
        0 <= delta * s / len <= delta,
{
    vstd::arithmetic::mul::lemma_mul_inequality(s, len, delta);
    assert(s * delta == delta * s && len * delta == delta * len) by (nonlinear_arith);
    vstd::arithmetic::div_mod::lemma_div_is_ordered(delta * s, delta * len, len);
    vstd::arithmetic::div_mod::lemma_div_multiples_vanish(delta, len);
    assert(len * delta == delta * len) by (nonlinear_arith);
    assert(0 <= delta * s) by (nonlinear_arith)
        requires
            0 <= delta,
            0 <= s,
    ;
    vstd::arithmetic::div_mod::lemma_div_pos_is_pos(delta * s, len);
}

/// Movement, run once per tick after targeting: every living unit with a
/// movement goal advances toward it by its speed, the elapsed time and its
/// team's speed modifier; a within-range unit already at attack range does
/// not move, and dead units never move.
pub fn move_units(units: &mut Vec<Unit>, dt_ms: u64, player_pct: u64, enemy_pct: u64)
    requires
        wf_units(old(units)@),
        dt_ms <= MAX_TICK_MS,
        player_pct <= SPEED_MOD_LIMIT,
        enemy_pct <= SPEED_MOD_LIMIT,
    ensures
        final(units)@.len() == old(units)@.len(),
        wf_units(final(units)@),
        forall|i: int|
            0 <= i < old(units)@.len() ==> final(units)@[i] == moved_unit(
                old(units)@[i],
                dt_ms as int,
                (if old(units)@[i].team == Team::Player {
                    player_pct
                } else {
                    enemy_pct
                }) as int,
            ),
        final(units)@ == moved_units_seq(
            old(units)@,
            dt_ms as int,
            player_pct as int,
            enemy_pct as int,
        ),
{
    let ghost orig = units@;
    let n = units.len();
    let mut i: usize = 0;
    while i < n
        invariant
            n == orig.len(),
            units@.len() == n,
            wf_units(orig),
            dt_ms <= MAX_TICK_MS,
            player_pct <= SPEED_MOD_LIMIT,
            enemy_pct <= SPEED_MOD_LIMIT,
            0 <= i <= n,
            forall|k: int| i as int <= k < n ==> units@[k] == orig[k],
            forall|k: int|
                0 <= k < i as int ==> #[trigger] units@[k] == moved_unit(
                    orig[k],
                    dt_ms as int,
                    (if orig[k].team == Team::Player {
                        player_pct
                    } else {
                        enemy_pct
                    }) as int,
                ),
            forall|k: int| 0 <= k < n ==> wf_unit(#[trigger] units@[k], n as int),
        decreases n - i,
    {
        let u = units[i];
        let pct = match u.team {
            Team::Player => player_pct,
            Team::Enemy => enemy_pct,
        };
        if u.alive {
            match u.movement {
                None => (),
                Some(Movement::Direct { x, y }) => {
                    let step = exec_step_budget(u.movement_speed, dt_ms, pct);
                    let moved = walk_toward(&u, x, y, step);
                    units[i] = moved;
                },
                Some(Movement::WithinRange { x, y, range }) => {
                    let d2 = exec_dist2(u.x, u.y, x, y);
                    proof {
                        assert((range as int) * (range as int) <= 0x4000_0000 * 0x4000_0000 && 0
                            <= (range as int) * (range as int)) by (nonlinear_arith)
                            requires
                                0 <= range as int <= 0x4000_0000,
                        ;
                    }
                    let r2: u64 = ((range as i128) * (range as i128)) as u64;
                    if d2 <= r2 {
                        // Already at attack range: stay put.
                    } else {
                        let step = exec_step_budget(u.movement_speed, dt_ms, pct);
                        let moved = walk_toward(&u, x, y, step);
                        units[i] = moved;
                    }
                },
            }
        }
        i = i + 1;
    }
    proof {
        assert(units@ =~= moved_units_seq(
            orig,
            dt_ms as int,
            player_pct as int,
            enemy_pct as int,
        ));
    }
}

/// An "attack occurred" notification, consumed by presentation for
/// animation and sound.
#[derive(Clone, Copy, Debug, PartialEq, Eq, Structural)]
pub struct AttackEvent {
    pub attacker: usize,
    pub target: usize,
}

/// A "unit died" notification.
#[derive(Clone, Copy, Debug, PartialEq, Eq, Structural)]
pub struct DeathEvent {
    pub unit: usize,
}

/// Attacker `i` takes its combat turn: the updated unit table, the attack
/// notifications and the death notifications it produces.
///
/// The order of checks is fixed: range first, then cooldown; a unit that
/// passes both records the attack time, then an already-dead target (health
/// at or below zero) is skipped, and only then is damage applied and death
/// resolved — so a target killed earlier in the same tick by another
/// attacker is never hit again.
pub open spec fn attack_one(units: Seq<Unit>, i: int, now: int) -> (
    Seq<Unit>,
    Seq<AttackEvent>,
    Seq<DeathEvent>,
) {
    let u = units[i];
    if !u.alive {
        (units, Seq::<AttackEvent>::empty(), Seq::<DeathEvent>::empty())
    } else {
        match u.target {
            None => (units, Seq::<AttackEvent>::empty(), Seq::<DeathEvent>::empty()),
            Some(t) => {
                let tv = units[t as int];
                if unit_dist2(units, i, t as int) > (u.range as int) * (u.range as int) {
                    (units, Seq::<AttackEvent>::empty(), Seq::<DeathEvent>::empty())
                } else if now < u.last_attack_ms + u.attack_cooldown_ms {
                    (units, Seq::<AttackEvent>::empty(), Seq::<DeathEvent>::empty())
                } else {
                    let struck = units.update(i, Unit { last_attack_ms: now as u64, ..u });
                    if tv.health <= 0 {
                        (struck, Seq::<AttackEvent>::empty(), Seq::<DeathEvent>::empty())
                    } else {
                        let h = tv.health - u.damage;
                        let tv2 = Unit { health: h as i64, alive: h > 0, ..tv };
                        let hit = struck.update(t as int, tv2);
                        let attacks = seq![
                            AttackEvent { attacker: i as usize, target: t },
                        ];
                        if h <= 0 {
                            (hit, attacks, seq![DeathEvent { unit: t }])
                        } else {
                            (hit, attacks, Seq::<DeathEvent>::empty())
                        }
                    }
                }
            },
        }
    }
}

/// The combat turns of the first `n` attackers, in table order, each acting
/// on the state its predecessors left behind.
pub open spec fn attack_upto(units: Seq<Unit>, n: int, now: int) -> (
    Seq<Unit>,
    Seq<AttackEvent>,
    Seq<DeathEvent>,
)
    decreases n,
{
    if n <= 0 {
        (units, Seq::<AttackEvent>::empty(), Seq::<DeathEvent>::empty())
    } else {
        let prev = attack_upto(units, n - 1, now);
        let step = attack_one(prev.0, n - 1, now);
        (step.0, prev.1 + step.1, prev.2 + step.2)
    }
}

/// One combat turn keeps the table well formed, never raises anyone's
/// health, leaves every unit with non-positive health exactly as it was,
/// and notifies a death only for a target whose health was positive before
/// the turn and non-positive after it.
pub proof fn lemma_attack_one_props(units: Seq<Unit>, i: int, now: int, j: int)
    requires
        wf_units(units),
        0 <= i < units.len(),
        0 <= j < units.len(),
        0 <= now <= crate::units::TIME_LIMIT,
    ensures
        attack_one(units, i, now).0.len() == units.len(),
        wf_units(attack_one(units, i, now).0),
        attack_one(units, i, now).0[j].health <= units[j].health,
        attack_one(units, i, now).0[j].x == units[j].x && attack_one(units, i, now).0[j].y
            == units[j].y && attack_one(units, i, now).0[j].team == units[j].team,
        units[j].health <= 0 ==> attack_one(units, i, now).0[j] == units[j],
        attack_one(units, i, now).2.len() <= 1,
        forall|k: int|
            0 <= k < attack_one(units, i, now).2.len() ==> {
                let e = #[trigger] attack_one(units, i, now).2[k];
                &&& 0 <= e.unit < units.len()
                &&& units[e.unit as int].health > 0
                &&& attack_one(units, i, now).0[e.unit as int].health <= 0
            },
{
    let u = units[i];
    if u.alive {
        match u.target {
            None => {},
            Some(t) => {
                assert(t < units.len());
                let tv = units[t as int];
                if unit_dist2(units, i, t as int) > (u.range as int) * (u.range as int) {
                } else if now < u.last_attack_ms + u.attack_cooldown_ms {
                } else {
                    let struck = units.update(i, Unit { last_attack_ms: now as u64, ..u });
                    assert(u.health > 0);
                    if tv.health <= 0 {
                    } else {
                        let h = tv.health - u.damage;
                        assert(-STAT_LIMIT <= h <= STAT_LIMIT);
                    }
                }
            },
        }
    }
}

/// The deaths notified for unit `j` among `deaths`.
pub open spec fn deaths_for(deaths: Seq<DeathEvent>, j: int) -> Seq<DeathEvent> {
    deaths.filter(|e: DeathEvent| e.unit as int == j)
}

/// Filtering a sequence of at most one death keeps it, or drops it, by the
/// predicate.
proof fn lemma_filter_one(s: Seq<DeathEvent>, pred: spec_fn(DeathEvent) -> bool)
    requires
        s.len() <= 1,
    ensures
        s.filter(pred).len() <= 1,
        s.len() == 1 && !pred(s[0]) ==> s.filter(pred).len() == 0,
        s.len() == 1 && pred(s[0]) ==> s.filter(pred) == seq![s[0]],
        s.len() == 0 ==> s.filter(pred).len() == 0,
{
    reveal_with_fuel(Seq::filter, 2);
    if s.len() == 1 {
        assert(s.drop_last() =~= Seq::<DeathEvent>::empty());
        assert(s.drop_last().filter(pred) =~= Seq::<DeathEvent>::empty());
        assert(s.last() == s[0]);
        if pred(s[0]) {
            assert(s.filter(pred) =~= seq![s[0]]);
        }
    } else {
        assert(s =~= Seq::<DeathEvent>::empty());
    }
}

/// Over a whole combat pass: the table stays well formed, health never
/// rises, units that were already dead are untouched, and positions and
/// teams never change.
pub proof fn lemma_attack_upto_props(units: Seq<Unit>, n: int, now: int, j: int)
    requires
        wf_units(units),
        0 <= n <= units.len(),
        0 <= j < units.len(),
        0 <= now <= crate::units::TIME_LIMIT,
    ensures
        attack_upto(units, n, now).0.len() == units.len(),
        wf_units(attack_upto(units, n, now).0),
        attack_upto(units, n, now).0[j].health <= units[j].health,
        attack_upto(units, n, now).0[j].x == units[j].x && attack_upto(units, n, now).0[j].y
            == units[j].y && attack_upto(units, n, now).0[j].team == units[j].team,
        units[j].health <= 0 ==> attack_upto(units, n, now).0[j] == units[j],
    decreases n,
{
    if n > 0 {
        lemma_attack_upto_props(units, n - 1, now, j);
        let prev = attack_upto(units, n - 1, now);
        assert forall|k: int| 0 <= k < units.len() implies {
            &&& prev.0[k].health <= units[k].health
            &&& (units[k].health <= 0 ==> prev.0[k] == units[k])
        } by {
            lemma_attack_upto_props(units, n - 1, now, k);
        }
        lemma_attack_one_props(prev.0, n - 1, now, j);
    }
}

/// No double death notification: one combat pass notifies the death of any
/// given unit at most once, and only for a unit that entered the pass with
/// positive health and left it with health at or below zero — a unit's
/// health is never "attacked below zero further".
pub proof fn lemma_no_double_death(units: Seq<Unit>, n: int, now: int, j: int)
    requires
        wf_units(units),
        0 <= n <= units.len(),
        0 <= j < units.len(),
        0 <= now <= crate::units::TIME_LIMIT,
    ensures
        deaths_for(attack_upto(units, n, now).2, j).len() <= 1,
        deaths_for(attack_upto(units, n, now).2, j).len() == 1 ==> units[j].health > 0
            && attack_upto(units, n, now).0[j].health <= 0,
    decreases n,
{
    if n > 0 {
        lemma_no_double_death(units, n - 1, now, j);
        lemma_attack_upto_props(units, n - 1, now, j);
        let prev = attack_upto(units, n - 1, now);
        lemma_attack_one_props(prev.0, n - 1, now, j);
        let step = attack_one(prev.0, n - 1, now);
        Seq::filter_distributes_over_add(prev.2, step.2, |e: DeathEvent| e.unit as int == j);
        lemma_filter_one(step.2, |e: DeathEvent| e.unit as int == j);
        if deaths_for(step.2, j).len() >= 1 {
            assert(step.2.len() == 1);
            assert(step.2[0].unit as int == j);
            // The step killed j, so j was alive when the step began.
            assert(prev.0[j].health > 0);
            // Then no earlier death was notified for j.
            assert(deaths_for(prev.2, j).len() == 0);
            assert(units[j].health > 0);
            assert(step.0[j].health <= 0);
        } else {
            if deaths_for(prev.2, j).len() == 1 {
                assert(prev.0[j].health <= 0);
                assert(step.0[j] == prev.0[j]);
            }
        }
    }
}

/// Combat, run once per tick after movement. Every living unit with a
/// recorded target attacks it if it is in range and the attacker's cooldown
/// has elapsed: the attack time is recorded, a target already at or below
/// zero health is skipped, and otherwise the attacker's damage is taken
/// from the target's health, an attack notification is pushed, and a death
/// notification follows if the blow was fatal. Attackers act in table
/// order, each seeing the damage dealt before its turn.
pub fn attack(
    units: &mut Vec<Unit>,
    now_ms: u64,
    attack_events: &mut Vec<AttackEvent>,
    death_events: &mut Vec<DeathEvent>,
)
    requires
        wf_units(old(units)@),
        now_ms <= crate::units::TIME_LIMIT,
    ensures
        final(units)@ == attack_upto(old(units)@, old(units)@.len() as int, now_ms as int).0,
        final(units)@.len() == old(units)@.len(),
        wf_units(final(units)@),
        final(attack_events)@ == old(attack_events)@ + attack_upto(
            old(units)@,
            old(units)@.len() as int,
            now_ms as int,
        ).1,
        final(death_events)@ == old(death_events)@ + attack_upto(
            old(units)@,
            old(units)@.len() as int,
            now_ms as int,
        ).2,
{
    let ghost orig = units@;
    let ghost ae0 = attack_events@;
    let ghost de0 = death_events@;
    let n = units.len();
    let mut i: usize = 0;
    proof {
        assert(attack_events@ =~= ae0 + attack_upto(orig, 0, now_ms as int).1);
        assert(death_events@ =~= de0 + attack_upto(orig, 0, now_ms as int).2);
    }
    while i < n
        invariant
            n == orig.len(),
            wf_units(orig),
            now_ms <= crate::units::TIME_LIMIT,
            0 <= i <= n,
            units@ == attack_upto(orig, i as int, now_ms as int).0,
            units@.len() == n,
            wf_units(units@),
            attack_events@ == ae0 + attack_upto(orig, i as int, now_ms as int).1,
            death_events@ == de0 + attack_upto(orig, i as int, now_ms as int).2,
        decreases n - i,
    {
        let ghost pre = units@;
        let u = units[i];
        if u.alive {
            match u.target {
                None => (),
                Some(t) => {
                    let tv = units[t];
                    let d2 = exec_unit_dist2(&u, &tv);
                    proof {
                        assert((u.range as int) * (u.range as int) <= 0x4000_0000 * 0x4000_0000
                            && 0 <= (u.range as int) * (u.range as int)) by (nonlinear_arith)
                            requires
                                0 <= u.range as int <= 0x4000_0000,
                        ;
                    }
                    let r2: u64 = ((u.range as i128) * (u.range as i128)) as u64;
                    if d2 > r2 {
                    } else if now_ms < u.last_attack_ms + u.attack_cooldown_ms {
                    } else {
                        units[i] = Unit { last_attack_ms: now_ms, ..u };
                        if tv.health <= 0 {
                        } else {
                            attack_events.push(AttackEvent { attacker: i, target: t });
                            let h = tv.health - u.damage;
                            units[t] = Unit { health: h, alive: h > 0, ..tv };
                            if h <= 0 {
                                death_events.push(DeathEvent { unit: t });
                            }
                        }
                    }
                },
            }
        }
        proof {
            let now = now_ms as int;
            let step = attack_one(pre, i as int, now);
            assert(units@ =~= step.0);
            assert(attack_events@ =~= ae0 + attack_upto(orig, i as int, now).1 + step.1);
            assert(death_events@ =~= de0 + attack_upto(orig, i as int, now).2 + step.2);
            assert(attack_events@ =~= ae0 + (attack_upto(orig, i as int, now).1 + step.1));
            assert(death_events@ =~= de0 + (attack_upto(orig, i as int, now).2 + step.2));
            assert(units@ == attack_upto(orig, i as int + 1, now).0);
            assert forall|k: int| 0 <= k < units@.len() implies wf_unit(
                #[trigger] units@[k],
                units@.len() as int,
            ) by {
                lemma_attack_one_props(pre, i as int, now, k);
            }
        }
        i = i + 1;
    }
}

/// Computes the tick's displacement budget.
fn exec_step_budget(speed: i64, dt_ms: u64, pct: u64) -> (r: u64)
    requires
        0 <= speed <= crate::units::STAT_LIMIT,
        dt_ms <= MAX_TICK_MS,
        pct <= SPEED_MOD_LIMIT,
    ensures
        r as int == step_budget(speed as int, dt_ms as int, pct as int),
{
    proof {
        assert((speed as int) * (dt_ms as int) <= 0x4000_0000 * 0x10_0000 && 0 <= (speed as int) * (
        dt_ms as int)) by (nonlinear_arith)
            requires
                0 <= speed as int <= 0x4000_0000,
                0 <= dt_ms as int <= 0x10_0000,
        ;
        assert((speed as int) * (dt_ms as int) * (pct as int) <= 0x4000_0000 * 0x10_0000
            * 0x1_0000 && 0 <= (speed as int) * (dt_ms as int) * (pct as int))
            by (nonlinear_arith)
            requires
                0 <= (speed as int) * (dt_ms as int) <= 0x4000_0000 * 0x10_0000,
                0 <= pct as int <= 0x1_0000,
        ;
        vstd::arithmetic::div_mod::lemma_div_pos_is_pos(
            (speed as int) * (dt_ms as int) * (pct as int),
            100_000,
        );
        vstd::arithmetic::div_mod::lemma_div_is_ordered(
            (speed as int) * (dt_ms as int) * (pct as int),
            0x4000_0000int * 0x10_0000int * 0x1_0000int,
            100_000,
        );
    }
    let wide: u128 = (speed as u128) * (dt_ms as u128) * (pct as u128) / 100_000;
    wide as u64
}

} // verus!
