//! Formation layout: pure geometry turning a unit count into an ordered
//! sequence of relative grid offsets, one per unit.
//!
//! A box formation fills the smallest square grid that holds the count,
//! row-major; a pyramid stacks rows that grow by one cell per level, each
//! row descending diagonally so the silhouette is triangular.

use vstd::prelude::*;
use crate::rng::rand_below;

verus! {

/// Unit counts are capped so every intermediate coordinate and row total
/// fits comfortably in the machine integers, on 32-bit targets too.
pub const MAX_FORMATION_COUNT: usize = 0x4000_0000;

/// The kind of layout a squad spawns in, fixed at spawn time.
#[derive(Clone, Copy, Debug, PartialEq, Eq, Structural)]
pub enum Formation {
    Box,
    Pyramid,
}

impl Default for Formation {
    fn default() -> (r: Self)
        ensures
            r == Formation::Box,
    {
        Formation::Box
    }
}

/// `s` is the side of the box formation for `count` units: the smallest
/// positive integer whose square is at least `count`.
pub open spec fn is_box_side(count: int, s: int) -> bool {
    if count <= 0 {
        s == 1
    } else {
        1 <= s && count <= s * s && (s - 1) * (s - 1) < count
    }
}

/// The side of the box formation for `count` units (the ceiling of the
/// square root of `count`, and 1 when `count` is 0).
pub open spec fn box_side(count: int) -> int {
    choose|s: int| is_box_side(count, s)
}

pub proof fn lemma_box_side_exists(count: int)
    requires
        count >= 0,
    ensures
        is_box_side(count, box_side(count)),
    decreases count,
{
    if count <= 0 {
        assert(is_box_side(count, 1));
    } else if count == 1 {
        assert(is_box_side(count, 1));
    } else {
        lemma_box_side_exists(count - 1);
        let s = box_side(count - 1);
        if count <= s * s {
            assert(is_box_side(count, s));
        } else {
            // count - 1 <= s * s < count, so count == s * s + 1 <= (s + 1) * (s + 1).
            assert(count <= (s + 1) * (s + 1)) by (nonlinear_arith)
                requires 1 <= s, count == s * s + 1;
            assert(is_box_side(count, s + 1));
        }
    }
}

pub proof fn lemma_box_side_unique(count: int, s1: int, s2: int)
    requires
        is_box_side(count, s1),
        is_box_side(count, s2),
    ensures
        s1 == s2,
{
    if count > 0 {
        if s1 < s2 {
            assert(s1 * s1 <= (s2 - 1) * (s2 - 1)) by (nonlinear_arith)
                requires 1 <= s1, s1 < s2;
        }
        if s2 < s1 {
            assert(s2 * s2 <= (s1 - 1) * (s1 - 1)) by (nonlinear_arith)
                requires 1 <= s2, s2 < s1;
        }
    }
}

/// The box side never exceeds the count itself (for a positive count).
pub proof fn lemma_box_side_le_count(count: int, s: int)
    requires
        count >= 1,
        is_box_side(count, s),
    ensures
        s <= count,
{
    if s >= 2 {
        assert(s - 1 <= (s - 1) * (s - 1)) by (nonlinear_arith)
            requires
                1 <= s - 1,
        ;
    }
}

/// Computes the box side: the smallest square at least as large as `count`.
pub fn exec_box_side(count: usize) -> (s: usize)
    requires
        count <= MAX_FORMATION_COUNT,
    ensures
        s as int == box_side(count as int),
        is_box_side(count as int, s as int),
        1 <= s <= 0x8000,
        count > 0 ==> s <= count,
{
    let mut s: usize = 1;
    while s * s < count
        invariant
            1 <= s <= 0x8000,
            (s as int) * (s as int) <= 0x4000_0000,
            count <= MAX_FORMATION_COUNT,
            (s - 1) * (s - 1) < count as int || s == 1,
        decreases count as int - s,
    {
        proof {
            assert(s as int <= (s as int) * (s as int)) by (nonlinear_arith)
                requires
                    1 <= s,
            ;
            assert(s < 0x8000) by (nonlinear_arith)
                requires
                    (s as int) * (s as int) < 0x4000_0000,
            ;
            assert((s as int + 1) * (s as int + 1) <= 0x4000_0000) by (nonlinear_arith)
                requires
                    s as int + 1 <= 0x8000,
            ;
        }
        s = s + 1;
    }
    proof {
        assert((s as int - 1) * (s as int - 1) < count as int || count == 0) by (nonlinear_arith)
            requires
                (s as int - 1) * (s as int - 1) < count as int || s == 1,
                count >= 0,
        ;
        assert(is_box_side(count as int, s as int));
        lemma_box_side_exists(count as int);
        lemma_box_side_unique(count as int, s as int, box_side(count as int));
        if count > 0 {
            lemma_box_side_le_count(count as int, s as int);
        }
    }
    s
}

/// Lays `count` units row-major in the smallest square grid that holds
/// them: unit `i` sits at column `i % side` and row `i / side`.
pub fn coords_box(count: usize) -> (r: Vec<(i64, i64)>)
    requires
        count <= MAX_FORMATION_COUNT,
    ensures
        r@.len() == count as int,
        forall|i: int|
            0 <= i < count as int ==> r@[i] == (
                (i % box_side(count as int)) as i64,
                (i / box_side(count as int)) as i64,
            ),
        forall|i: int| 0 <= i < count as int ==> 0 <= (#[trigger] r@[i]).0 < box_side(count as int),
        forall|i: int|
            0 <= i < count as int ==> 0 <= (#[trigger] r@[i]).0 <= i && 0 <= r@[i].1 <= i,
{
    let mut coords: Vec<(i64, i64)> = Vec::new();

    let mut x: i64 = 0;
    let mut y: i64 = 0;

    let square = exec_box_side(count);
    proof {
        lemma_box_side_exists(count as int);
    }

    let mut i: usize = 0;
    while i < count
        invariant
            0 <= i <= count,
            count <= MAX_FORMATION_COUNT,
            square as int == box_side(count as int),
            1 <= square <= 0x8000,
            coords@.len() == i as int,
            i as int == y * (square as int) + x,
            0 <= x < square as int,
            x <= i as int,
            0 <= y <= i as int,
            forall|j: int|
                0 <= j < i as int ==> #[trigger] coords@[j] == (
                    (j % square as int) as i64,
                    (j / square as int) as i64,
                ),
            forall|j: int|
                0 <= j < i as int ==> 0 <= (#[trigger] coords@[j]).0 <= j && 0 <= coords@[j].1
                    <= j,
        decreases count - i,
    {
        let ghost i0 = i as int;
        let ghost x0 = x as int;
        let ghost y0 = y as int;
        coords.push((x, y));
        proof {
            vstd::arithmetic::div_mod::lemma_fundamental_div_mod_converse(
                i0,
                square as int,
                y0,
                x0,
            );
            assert(coords@[i0] == ((i0 % square as int) as i64, (i0 / square as int) as i64));
        }
        i = i + 1;
        if x == square as i64 - 1 {
            x = 0;
            y = y + 1;
            proof {
                assert((y0 + 1) * square as int == y0 * square as int + square as int)
                    by (nonlinear_arith);
                assert(i as int == y * (square as int) + x);
            }
        } else {
            x = x + 1;
        }
    }
    proof {
        assert forall|j: int| 0 <= j < count as int implies 0 <= (#[trigger] coords@[j]).0
            < box_side(count as int) by {
            vstd::arithmetic::div_mod::lemma_mod_bound(j, square as int);
        }
    }
    coords
}

/// The `r`-th triangular number: how many units the first `r` pyramid rows
/// hold in total.
pub open spec fn tri(r: int) -> int
    decreases r,
{
    if r <= 0 {
        0
    } else {
        tri(r - 1) + r
    }
}

pub proof fn lemma_tri_monotonic(r1: int, r2: int)
    requires
        0 <= r1 <= r2,
    ensures
        tri(r1) <= tri(r2),
        r2 <= tri(r2),
    decreases r2,
{
    if r1 < r2 {
        lemma_tri_monotonic(r1, r2 - 1);
    } else if r2 > 0 {
        lemma_tri_monotonic(r1 - 1, r2 - 1);
    }
}

/// In a pyramid, unit `i` is the `k`-th unit of row `row` exactly when the
/// rows before `row` hold `i - k` units.
pub open spec fn pyramid_place(i: int, row: int, k: int) -> bool {
    &&& 0 <= row
    &&& 0 <= k <= row
    &&& i == tri(row) + k
}

/// Every index has a pyramid place.
pub proof fn lemma_pyramid_place_exists(i: int)
    requires
        0 <= i,
    ensures
        exists|row: int, k: int| pyramid_place(i, row, k),
    decreases i,
{
    if i == 0 {
        assert(pyramid_place(0, 0, 0));
    } else {
        lemma_pyramid_place_exists(i - 1);
        let (row, k): (int, int) = choose|row: int, k: int| #[trigger] pyramid_place(i - 1, row, k);
        if k < row {
            assert(pyramid_place(i, row, k + 1));
        } else {
            assert(pyramid_place(i, row + 1, 0));
        }
    }
}

/// A pyramid place is unique.
pub proof fn lemma_pyramid_place_unique(i: int, r1: int, k1: int, r2: int, k2: int)
    requires
        pyramid_place(i, r1, k1),
        pyramid_place(i, r2, k2),
    ensures
        r1 == r2,
        k1 == k2,
{
    if r1 < r2 {
        lemma_tri_monotonic(r1 + 1, r2);
        assert(tri(r1) + k1 <= tri(r1) + r1 < tri(r1 + 1));
    }
    if r2 < r1 {
        lemma_tri_monotonic(r2 + 1, r1);
        assert(tri(r2) + k2 <= tri(r2) + r2 < tri(r2 + 1));
    }
}

/// The pyramid offset of index `i`: the `k`-th unit of its row `row` sits
/// at `(k, row - k)`.
pub open spec fn pyramid_offset(i: int) -> (int, int) {
    let (row, k): (int, int) = choose|row: int, k: int| #[trigger] pyramid_place(i, row, k);
    (k, row - k)
}

/// The relative offset of unit `i` in a formation laid out for `count`
/// units.
pub open spec fn formation_offset(f: Formation, count: int, i: int) -> (int, int) {
    match f {
        Formation::Box => (i % box_side(count), i / box_side(count)),
        Formation::Pyramid => pyramid_offset(i),
    }
}

/// Formation offsets are non-negative and never exceed the unit's index.
pub proof fn lemma_formation_offset_bounds(f: Formation, count: int, i: int)
    requires
        0 <= i < count,
    ensures
        0 <= formation_offset(f, count, i).0 <= i,
        0 <= formation_offset(f, count, i).1 <= i,
{
    match f {
        Formation::Box => {
            lemma_box_side_exists(count);
            let s = box_side(count);
            vstd::arithmetic::div_mod::lemma_mod_bound(i, s);
            vstd::arithmetic::div_mod::lemma_mod_decreases(i as nat, s as nat);
            vstd::arithmetic::div_mod::lemma_div_pos_is_pos(i, s);
            vstd::arithmetic::div_mod::lemma_div_nonincreasing(i, s);
        },
        Formation::Pyramid => {
            lemma_pyramid_place_exists(i);
            let (row, k): (int, int) = choose|row: int, k: int|
                #[trigger] pyramid_place(i, row, k);
            lemma_pyramid_offset(i, row, k);
            lemma_tri_monotonic(0, row);
        },
    }
}

/// Stacks `count` units in rows that grow by one cell per level: the `k`-th
/// unit of row `row` sits at `(k, row - k)`, so x grows and y falls along a
/// row, giving the triangular silhouette.
pub fn coords_pyramid(count: usize) -> (r: Vec<(i64, i64)>)
    requires
        count <= MAX_FORMATION_COUNT,
    ensures
        r@.len() == count as int,
        forall|i: int, row: int, k: int|
            0 <= i < count as int && pyramid_place(i, row, k) ==> r@[i] == (
                k as i64,
                (row - k) as i64,
            ),
        forall|i: int|
            0 <= i < count as int ==> 0 <= (#[trigger] r@[i]).0 <= i && 0 <= r@[i].1 <= i,
{
    let mut coords: Vec<(i64, i64)> = Vec::new();

    let mut x: i64 = 0;
    let mut y: i64 = 0;

    let mut row: usize = 0;
    let mut row_count: usize = 1;

    proof {
        assert(tri(0) == 0);
        assert(tri(1) == 1);
    }

    while coords.len() < count
        invariant
            count <= MAX_FORMATION_COUNT,
            coords@.len() <= count as int,
            0 <= row,
            row_count as int == tri(row as int + 1),
            tri(row as int) <= coords@.len() < tri(row as int + 1),
            row as int <= coords@.len(),
            x as int == coords@.len() - tri(row as int),
            0 <= x <= row as int,
            y as int == row as int - x as int,
            forall|j: int, rw: int, k: int|
                0 <= j < coords@.len() && pyramid_place(j, rw, k) ==> coords@[j] == (
                    k as i64,
                    (rw - k) as i64,
                ),
            forall|j: int|
                0 <= j < coords@.len() ==> 0 <= (#[trigger] coords@[j]).0 <= j && 0 <= coords@[j].1
                    <= j,
        decreases count - coords.len(),
    {
        let i = coords.len();
        coords.push((x, y));
        proof {
            assert(pyramid_place(i as int, row as int, x as int));
            lemma_tri_monotonic(0, row as int);
            assert(row as int <= tri(row as int));
            assert(x as int <= i as int);
            assert(y as int <= row as int <= i as int);
            assert forall|rw: int, k: int| pyramid_place(i as int, rw, k) implies coords@[i as int]
                == (k as i64, (rw - k) as i64) by {
                lemma_pyramid_place_unique(i as int, row as int, x as int, rw, k);
            }
        }

        if coords.len() == row_count {
            proof {
                lemma_tri_monotonic(0, row as int + 2);
                lemma_tri_monotonic(row as int + 1, row as int + 2);
            }
            row = row + 1;
            row_count = row_count + row + 1;
            x = 0;
            y = row as i64;
        } else {
            proof {
                assert(tri(row as int + 1) == tri(row as int) + row as int + 1);
            }
            x = x + 1;
            y = y - 1;
        }
    }
    coords
}

/// The pyramid offset of `i` is the pair named by its (unique) pyramid
/// place.
pub proof fn lemma_pyramid_offset(i: int, row: int, k: int)
    requires
        pyramid_place(i, row, k),
    ensures
        pyramid_offset(i) == (k, row - k),
{
    let (row2, k2): (int, int) = choose|row2: int, k2: int| #[trigger] pyramid_place(i, row2, k2);
    lemma_pyramid_place_unique(i, row, k, row2, k2);
}

impl Formation {
    /// The relative grid offsets for a squad of `count` units laid out in
    /// this formation: exactly `count` offsets, placed as the formation's
    /// rule dictates.
    pub fn coords(&self, count: usize) -> (r: Vec<(i64, i64)>)
        requires
            count <= MAX_FORMATION_COUNT,
        ensures
            r@.len() == count as int,
            forall|i: int|
                0 <= i < count as int ==> #[trigger] r@[i] == (
                    formation_offset(*self, count as int, i).0 as i64,
                    formation_offset(*self, count as int, i).1 as i64,
                ),
            forall|i: int|
                0 <= i < count as int ==> 0 <= (#[trigger] r@[i]).0 <= i && 0 <= r@[i].1 <= i,
    {
        let r = match self {
            Formation::Pyramid => coords_pyramid(count),
            Formation::Box => coords_box(count),
        };
        proof {
            if *self == Formation::Pyramid {
                assert forall|i: int| 0 <= i < count as int implies #[trigger] r@[i] == (
                    formation_offset(*self, count as int, i).0 as i64,
                    formation_offset(*self, count as int, i).1 as i64,
                ) by {
                    lemma_pyramid_place_exists(i);
                    let (row, k): (int, int) = choose|row: int, k: int|
                        #[trigger] pyramid_place(i, row, k);
                    lemma_pyramid_offset(i, row, k);
                }
            }
        }
        r
    }
}

/// Picks one of the two formations at random.
pub fn rand_formation() -> Formation {
    match rand_below(2) {
        0 => Formation::Pyramid,
        _ => Formation::Box,
    }
}

} // verus!
