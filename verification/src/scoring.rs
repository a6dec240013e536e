//! Grid distance and the points it earns.
//!
//! Cells of a grid are numbered row by row: cell `i` of a grid that is `cols`
//! wide lies in row `i / cols`, column `i % cols`.

use vstd::prelude::*;

verus! {

/// Absolute value of an integer.
pub open spec fn abs_diff(x: int, y: int) -> int {
    if x >= y {
        x - y
    } else {
        y - x
    }
}

/// Manhattan distance between cells `a` and `b` on a row-major grid that is
/// `cols` wide: rows apart plus columns apart.
pub open spec fn grid_distance(a: int, b: int, cols: int) -> int {
    abs_diff(a / cols, b / cols) + abs_diff(a % cols, b % cols)
}

/// Points earned by a guess at distance `d` from the target.
pub open spec fn points_at(d: int) -> int {
    if d == 0 {
        3
    } else if d == 1 {
        2
    } else if d == 2 {
        1
    } else {
        0
    }
}

/// Points earned by guessing cell `guess` when the target is cell `target`.
pub open spec fn guess_points(guess: int, target: int, cols: int) -> int {
    points_at(grid_distance(guess, target, cols))
}

/// A running score after `points` more, held at the top of the `i32` range.
pub open spec fn score_plus(score: int, points: int) -> int {
    if score + points > i32::MAX {
        i32::MAX as int
    } else {
        score + points
    }
}

/// Manhattan distance between two cells of a `cols`-wide grid. A distance
/// beyond the `i32` range is reported as `i32::MAX`.
pub fn manhattan(a_idx: usize, b_idx: usize, cols: usize) -> (d: i32)
    requires
        cols > 0,
    ensures
        d == if grid_distance(a_idx as int, b_idx as int, cols as int) <= i32::MAX {
            grid_distance(a_idx as int, b_idx as int, cols as int)
        } else {
            i32::MAX as int
        },
{
    let ar: usize = a_idx / cols;
    let ac: usize = a_idx % cols;
    let br: usize = b_idx / cols;
    let bc: usize = b_idx % cols;
    let rows_apart: usize = if ar >= br {
        ar - br
    } else {
        br - ar
    };
    let cols_apart: usize = if ac >= bc {
        ac - bc
    } else {
        bc - ac
    };
    if rows_apart > 0x7fff_ffff || cols_apart > 0x7fff_ffff {
        return i32::MAX;
    }
    let total: u64 = rows_apart as u64 + cols_apart as u64;
    if total > 0x7fff_ffff {
        i32::MAX
    } else {
        total as i32
    }
}

/// Looks up the points for a distance: 3 for a direct hit, 2 and 1 for the
/// next two rings, nothing beyond (or for a negative value).
pub fn score_by_distance(d: i32) -> (pts: i32)
    ensures
        pts == points_at(d as int),
        0 <= pts <= 3,
{
    if d == 0 {
        3
    } else if d == 1 {
        2
    } else if d == 2 {
        1
    } else {
        0
    }
}

/// Points for one guess against the target.
pub fn points_for(guess: usize, target: usize, cols: usize) -> (pts: i32)
    requires
        cols > 0,
    ensures
        pts == guess_points(guess as int, target as int, cols as int),
        0 <= pts <= 3,
{
    score_by_distance(manhattan(guess, target, cols))
}

/// Adds `points` to a running score without leaving the `i32` range.
pub fn add_points(score: i32, points: i32) -> (total: i32)
    requires
        0 <= points <= 3,
    ensures
        total == score_plus(score as int, points as int),
{
    if score > i32::MAX - points {
        i32::MAX
    } else {
        score + points
    }
}

/// The points of a guess depend on nothing but its grid distance from the
/// target: a direct hit earns 3, a neighbouring cell 2, a cell two steps away
/// 1, and any other cell nothing.
pub proof fn lemma_points_by_distance(guess: int, target: int, cols: int)
    ensures
        grid_distance(guess, target, cols) == 0 ==> guess_points(guess, target, cols) == 3,
        grid_distance(guess, target, cols) == 1 ==> guess_points(guess, target, cols) == 2,
        grid_distance(guess, target, cols) == 2 ==> guess_points(guess, target, cols) == 1,
        grid_distance(guess, target, cols) >= 3 ==> guess_points(guess, target, cols) == 0,
        grid_distance(guess, target, cols) >= 0,
        grid_distance(guess, target, cols) == grid_distance(target, guess, cols),
{
}

/// Guessing the target itself always earns the full three points.
pub proof fn lemma_direct_hit(target: int, cols: int)
    ensures
        guess_points(target, target, cols) == 3,
{
}

} // verus!
