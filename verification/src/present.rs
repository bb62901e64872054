//! How the bank is laid out on whatever is watching it: one monitor alone,
//! or the whole of it as a grid of tiles.

use vstd::prelude::*;

verus! {

/// What of the bank the display shows: the whole of it tiled, with the
/// monitor the front panel plays picked out, or one monitor alone. One value
/// rather than a solo beside a focus, so a solo of one monitor with the mark
/// on another cannot be asked for.
#[derive(Clone, Copy, Debug, PartialEq, Eq, Structural)]
pub enum View {
    /// Every monitor, tiled. `focus` is the one the front panel plays, and
    /// its tile is framed with a line; `None` frames nothing.
    Bank { focus: Option<usize> },
    /// One monitor on the whole target. Nothing to pick out, so no line.
    Solo(usize),
}

impl View {
    pub fn solo(self) -> (solo: Option<usize>)
        ensures
            solo == match self {
                View::Solo(m) => Some(m),
                View::Bank { .. } => None,
            },
    {
        match self {
            View::Solo(m) => Some(m),
            View::Bank { .. } => None,
        }
    }
}

/// The tile grid for `monitors` tiles: the fewest columns whose square
/// holds them, and as many rows of those as they fill.
pub open spec fn spec_grid(monitors: nat) -> (nat, nat)
    recommends
        monitors >= 1,
{
    let cols = columns(monitors, 1);
    (cols, ((monitors + cols - 1) / (cols as int)) as nat)
}

/// The fewest columns from `from` up whose square holds `monitors`.
pub open spec fn columns(monitors: nat, from: nat) -> nat
    decreases monitors - from,
{
    if from * from >= monitors || from == 0 {
        from
    } else {
        proof {
            lemma_square_grows(from);
        }
        columns(monitors, from + 1)
    }
}

/// A whole number past zero is no more than its square.
pub proof fn lemma_square_grows(n: nat)
    requires
        n >= 1,
    ensures
        n <= n * n,
{
    assert(n <= n * n) by (nonlinear_arith)
        requires
            n >= 1,
    ;
}

proof fn lemma_columns(monitors: nat, from: nat)
    requires
        from >= 1,
        (from - 1) * (from - 1) < monitors,
    ensures
        columns(monitors, from) >= 1,
        columns(monitors, from) * columns(monitors, from) >= monitors,
        (columns(monitors, from) - 1) * (columns(monitors, from) - 1) < monitors,
    decreases monitors - from,
{
    if from * from < monitors {
        lemma_square_grows(from);
        assert(from * from < (from + 1) * (from + 1)) by (nonlinear_arith)
            requires
                from >= 1,
        ;
        lemma_columns(monitors, from + 1);
    }
}

/// The tile grid for `monitors` tiles: `(columns, rows)`, as square as it
/// can be while every monitor gets a cell.
pub fn grid(monitors: usize) -> (grid: (u32, u32))
    requires
        1 <= monitors <= u32::MAX,
    ensures
        (grid.0 as nat, grid.1 as nat) == spec_grid(monitors as nat),
{
    proof {
        lemma_columns(monitors as nat, 1);
    }
    let mut cols: u64 = 1;
    while cols * cols < monitors as u64
        invariant
            1 <= cols <= 0x1_0000,
            cols * cols <= 0x1_0000_0000,
            1 <= monitors <= u32::MAX,
            (cols - 1) * (cols - 1) < monitors,
            columns(monitors as nat, cols as nat) == columns(monitors as nat, 1),
        decreases monitors - cols,
    {
        assert(cols < 0x1_0000 && cols <= cols * cols) by (nonlinear_arith)
            requires
                cols * cols < monitors,
                monitors <= u32::MAX,
                cols >= 1,
        ;
        cols = cols + 1;
        assert(cols * cols <= 0x1_0000_0000) by (nonlinear_arith)
            requires
                cols <= 0x1_0000,
        ;
    }
    let rows = (monitors as u64 + cols - 1) / cols;
    assert(rows <= monitors) by (nonlinear_arith)
        requires
            rows == (monitors + cols - 1) / (cols as int),
            cols >= 1,
            monitors >= 1,
    ;
    (cols as u32, rows as u32)
}

/// Every monitor gets a cell, and the grid is as square as it can be: never
/// more rows than columns, and one column more at most.
pub proof fn lemma_the_grid_holds_every_monitor_and_stays_square(monitors: nat)
    requires
        monitors >= 1,
    ensures
        spec_grid(monitors).0 * spec_grid(monitors).1 >= monitors,
        spec_grid(monitors).1 <= spec_grid(monitors).0,
        spec_grid(monitors).0 - spec_grid(monitors).1 <= 1,
        spec_grid(1) == (1nat, 1nat),
{
    lemma_columns(monitors, 1);
    assert(columns(1, 1) == 1);
    let c = columns(monitors, 1);
    let r = spec_grid(monitors).1;
    assert(r == (monitors + c - 1) / (c as int));
    assert(c * r >= monitors && c - r <= 1 && r <= c) by (nonlinear_arith)
        requires
            c >= 1,
            r == (monitors + c - 1) / (c as int),
            c * c >= monitors,
            (c - 1) * (c - 1) < monitors,
            monitors >= 1,
    ;
}

/// The monitors the display draws, in the order they are tiled: the
/// soloed one alone, or the whole bank.
pub fn tiles(monitors: usize, solo: Option<usize>) -> (tiles: std::ops::Range<usize>)
    requires
        solo matches Some(m) ==> m < monitors,
    ensures
        tiles.start == match solo {
            Some(m) => m,
            None => 0,
        },
        tiles.end == match solo {
            Some(m) => m + 1,
            None => monitors as int,
        },
{
    match solo {
        Some(m) => m..m + 1,
        None => 0..monitors,
    }
}

} // verus!
