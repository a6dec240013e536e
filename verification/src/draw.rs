//! Random cells of the grid: one cell, or several distinct ones.
//!
//! The only source of chance is the sub-second part of the system clock. A
//! draw without replacement never retries: the `i`-th pick takes a number
//! below the count of cells still free and maps it onto the free cell of that
//! rank, so every free cell is the image of exactly one number.

use vstd::prelude::*;
use std::time::Duration;
use std::time::SystemTime;
use std::time::SystemTimeError;

verus! {

/// A point on the system clock.
#[verifier::external_type_specification]
#[verifier::external_body]
pub struct ExSystemTime(std::time::SystemTime);

/// The error of a clock that stands before the instant it is compared with.
#[verifier::external_type_specification]
#[verifier::external_body]
pub struct ExSystemTimeError(std::time::SystemTimeError);

/// `SystemTime::now` reads the clock; nothing is known of what it returns.
pub assume_specification[ std::time::SystemTime::now ]() -> (now: SystemTime)
;

/// `Duration::subsec_nanos` is the part of a duration below one second, in
/// nanoseconds: always less than one billion.
pub assume_specification[ std::time::Duration::subsec_nanos ](d: &Duration) -> (nanos: u32)
    ensures
        nanos < 1_000_000_000,
;

/// `SystemTime::duration_since` against the Unix epoch: the time elapsed since
/// then, or an error when the clock stands before it. Nothing is known of
/// either value.
#[verifier::external_body]
fn since_epoch(now: &SystemTime) -> (elapsed: Result<Duration, SystemTimeError>) {
    now.duration_since(std::time::UNIX_EPOCH)
}

/// Number of cells of a `cols` by `rows` grid.
pub open spec fn cell_count(cols: u32, rows: u32) -> int {
    cols as int * rows as int
}

/// `s` is strictly increasing.
pub open spec fn increasing(s: Seq<usize>) -> bool {
    forall|i: int, j: int| 0 <= i < j < s.len() ==> s[i] < s[j]
}

/// `cell` is the free cell of rank `rank`, counting from zero, once the cells
/// of `taken` (strictly increasing) are gone: it is not taken, exactly `below`
/// taken cells lie under it, and `rank` free cells do.
pub open spec fn is_free_cell_of_rank(taken: Seq<usize>, rank: int, cell: int, below: int) -> bool {
    &&& 0 <= below <= taken.len()
    &&& cell == rank + below
    &&& forall|j: int| 0 <= j < below ==> taken[j] < cell
    &&& forall|j: int| below <= j < taken.len() ==> taken[j] > cell
}

/// What a draw of `count` cells from a grid of `total` cells must be: as many
/// cells as asked for, or all of them if there are fewer, each inside the
/// grid, none twice.
pub open spec fn is_unique_draw(cells: Seq<usize>, total: int, count: int) -> bool {
    &&& cells.len() == if count < total { count } else { total }
    &&& cells.no_duplicates()
    &&& forall|i: int| 0 <= i < cells.len() ==> 0 <= #[trigger] cells[i] < total
}

/// Number of cells of the grid, computed without overflow.
pub fn grid_cells(cols: u32, rows: u32) -> (total: u64)
    ensures
        total == cell_count(cols, rows),
{
    assert(0 <= cols as int * rows as int <= 0xffff_ffff * 0xffff_ffff) by (nonlinear_arith)
        requires
            0 <= cols as int <= 0xffff_ffff,
            0 <= rows as int <= 0xffff_ffff,
    ;
    cols as u64 * rows as u64
}

/// The sub-second nanoseconds of the system clock, or zero when the clock
/// stands before the Unix epoch.
pub fn clock_nanos() -> (nanos: u32)
    ensures
        nanos < 1_000_000_000,
{
    let now = SystemTime::now();
    match since_epoch(&now) {
        Ok(elapsed) => elapsed.subsec_nanos(),
        Err(_) => 0,
    }
}

/// Folds a clock reading into the range below `bound`.
pub fn cell_from_nanos(nanos: u32, bound: usize) -> (cell: usize)
    requires
        bound > 0,
    ensures
        cell == folded(nanos as int, bound as int),
        cell < bound,
{
    (nanos as usize) % bound
}

/// A number below `bound`, taken from the clock.
pub fn random_below(bound: usize) -> (r: usize)
    requires
        bound > 0,
    ensures
        r < bound && is_clock_draw(r as int, bound as int),
{
    cell_from_nanos(clock_nanos(), bound)
}

/// A random cell of a `cols` by `rows` grid.
pub fn rand_index(cols: u32, rows: u32) -> (cell: usize)
    requires
        0 < cell_count(cols, rows) <= usize::MAX,
    ensures
        cell < cell_count(cols, rows) && is_clock_draw(cell as int, cell_count(cols, rows)),
{
    let total: u64 = grid_cells(cols, rows);
    random_below(total as usize)
}

/// A clock reading folded into the range below `bound`: its remainder on
/// division by `bound`.
pub open spec fn folded(nanos: int, bound: int) -> int {
    nanos % bound
}

/// `r` is what some reading of the clock's sub-second nanoseconds, a number
/// below one billion, folds to in the range below `bound`. Which reading it
/// was is not known; in a range of more than a billion numbers, only the
/// first billion can come out.
pub open spec fn is_clock_draw(r: int, bound: int) -> bool {
    exists|nanos: int| 0 <= nanos < 1_000_000_000 && r == #[trigger] folded(nanos, bound)
}

/// A number drawn from the clock lies below the bound and below one billion.
pub proof fn lemma_clock_draw_is_bounded(r: int, bound: int)
    requires
        bound > 0,
        is_clock_draw(r, bound),
    ensures
        0 <= r < bound,
        r < 1_000_000_000,
{
    let nanos = choose|nanos: int| 0 <= nanos < 1_000_000_000 && r == #[trigger] folded(nanos, bound);
    assert(0 <= nanos % bound < bound && nanos % bound <= nanos) by (nonlinear_arith)
        requires
            0 <= nanos,
            bound > 0,
    ;
}

/// Finds the free cell of rank `rank` among the cells not in `taken`, and the
/// position at which it belongs in `taken`.
pub fn pick_free_cell(taken: &Vec<usize>, rank: usize) -> (picked: (usize, usize))
    requires
        increasing(taken@),
        rank + taken.len() <= usize::MAX,
    ensures
        is_free_cell_of_rank(taken@, rank as int, picked.0 as int, picked.1 as int),
{
    let mut cell: usize = rank;
    let mut i: usize = 0;
    while i < taken.len() && taken[i] <= cell
        invariant
            0 <= i <= taken.len(),
            cell == rank + i,
            rank + taken.len() <= usize::MAX,
            increasing(taken@),
            forall|j: int| 0 <= j < i ==> taken@[j] < cell,
        decreases taken.len() - i,
    {
        cell = cell + 1;
        i = i + 1;
    }
    (cell, i)
}

/// Draws `count` distinct random cells of a `cols` by `rows` grid, in the
/// order drawn; all cells of the grid if it has fewer than `count`.
pub fn rand_unique_indices(cols: u32, rows: u32, count: usize) -> (cells: Vec<usize>)
    requires
        cell_count(cols, rows) <= usize::MAX,
    ensures
        is_unique_draw(cells@, cell_count(cols, rows), count as int),
{
    let total: usize = grid_cells(cols, rows) as usize;
    let wanted: usize = if count < total {
        count
    } else {
        total
    };
    let mut cells: Vec<usize> = Vec::new();
    let mut taken: Vec<usize> = Vec::new();
    while cells.len() < wanted
        invariant
            wanted <= total,
            cells.len() == taken.len(),
            cells.len() <= wanted,
            increasing(taken@),
            cells@.no_duplicates(),
            forall|i: int| 0 <= i < taken.len() ==> taken@[i] < total,
            forall|i: int| 0 <= i < cells.len() ==> cells@[i] < total,
            forall|i: int| 0 <= i < cells.len() ==> taken@.contains(#[trigger] cells@[i]),
        decreases wanted - cells.len(),
    {
        let free: usize = total - cells.len();
        let rank: usize = random_below(free);
        let (cell, at) = pick_free_cell(&taken, rank);
        let ghost before = taken@;
        taken.insert(at, cell);
        proof {
            assert(!before.contains(cell));
            assert forall|i: int, j: int| 0 <= i < j < taken@.len() implies taken@[i] < taken@[j] by {
                if j < at {
                    assert(taken@[i] == before[i] && taken@[j] == before[j]);
                } else if j == at {
                    assert(taken@[i] == before[i]);
                } else if i < at {
                    assert(taken@[i] == before[i] && taken@[j] == before[j - 1]);
                } else if i == at {
                    assert(taken@[j] == before[j - 1]);
                } else {
                    assert(taken@[i] == before[i - 1] && taken@[j] == before[j - 1]);
                }
            }
            assert forall|i: int| 0 <= i < cells.len() implies taken@.contains(
                #[trigger] cells@[i],
            ) && cells@[i] != cell by {
                let k = choose|k: int| 0 <= k < before.len() && before[k] == cells@[i];
                if k < at {
                    assert(taken@[k] == cells@[i]);
                } else {
                    assert(taken@[k + 1] == cells@[i]);
                }
            }
            assert(taken@[at as int] == cell);
        }
        cells.push(cell);
    }
    cells
}

/// Whether `cells` is what a draw of `count` cells from a grid of `total`
/// cells must be.
pub fn check_unique_draw(cells: &Vec<usize>, total: usize, count: usize) -> (ok: bool)
    ensures
        ok == is_unique_draw(cells@, total as int, count as int),
{
    let wanted: usize = if count < total {
        count
    } else {
        total
    };
    if cells.len() != wanted {
        return false;
    }
    let mut i: usize = 0;
    while i < cells.len()
        invariant
            0 <= i <= cells.len(),
            forall|a: int| 0 <= a < i ==> cells@[a] < total,
            forall|a: int, b: int| 0 <= a < b < cells.len() && a < i ==> cells@[a] != cells@[b],
        decreases cells.len() - i,
    {
        if cells[i] >= total {
            return false;
        }
        let mut j: usize = i + 1;
        while j < cells.len()
            invariant
                0 <= i < j <= cells.len(),
                forall|b: int| i < b < j ==> cells@[i as int] != cells@[b],
            decreases cells.len() - j,
        {
            if cells[i] == cells[j] {
                return false;
            }
            j = j + 1;
        }
        i = i + 1;
    }
    true
}

} // verus!
