//! The mathematical model of a grid and of one generation step.
//!
//! A grid is a sequence of rows, top row first; a row is a sequence of
//! alive flags, leftmost cell first. Positions are `(x, y)` with `x` the
//! column and `y` the row. Everything here is specification: the executable
//! code in the other modules is proved against these definitions.

use vstd::prelude::*;

verus! {

/// Every row is as long as the first one.
pub open spec fn rectangular(cells: Seq<Seq<bool>>) -> bool {
    forall|y: int| 0 <= y < cells.len() ==> (#[trigger] cells[y]).len() == cells[0].len()
}

/// The grid has `height` rows of `width` cells each.
pub open spec fn has_shape(cells: Seq<Seq<bool>>, width: nat, height: nat) -> bool {
    &&& cells.len() == height
    &&& forall|y: int| 0 <= y < cells.len() ==> (#[trigger] cells[y]).len() == width
}

/// The two grids have the same number of rows, and row by row the same
/// number of cells.
pub open spec fn same_shape(a: Seq<Seq<bool>>, b: Seq<Seq<bool>>) -> bool {
    &&& a.len() == b.len()
    &&& forall|y: int| 0 <= y < a.len() ==> (#[trigger] a[y]).len() == b[y].len()
}

/// Where position `idx` lands on an axis of `len` places.
///
/// With wrapping edges every position lands on the axis, reduced by the
/// mathematical modulo, so `-1` is the last place and `len` the first. With
/// bounded edges only the positions `0 .. len` land, each on itself. An axis
/// without places takes no position.
pub open spec fn resolve(idx: int, len: nat, wrapping: bool) -> Option<int> {
    if len == 0 {
        None
    } else if wrapping {
        Some(idx % (len as int))
    } else if 0 <= idx < len {
        Some(idx)
    } else {
        None
    }
}

/// Whether the neighbour position `(x, y)` holds a living cell. A position
/// that lands nowhere holds none.
pub open spec fn alive_at(cells: Seq<Seq<bool>>, wrapping: bool, x: int, y: int) -> bool {
    match resolve(y, cells.len(), wrapping) {
        Some(row) => match resolve(x, cells[row].len(), wrapping) {
            Some(column) => cells[row][column],
            None => false,
        },
        None => false,
    }
}

/// One for a living cell, zero for a dead one.
pub open spec fn one_if(alive: bool) -> nat {
    if alive {
        1
    } else {
        0
    }
}

/// The number of living neighbours of the cell at `(x, y)`: the eight
/// positions around it, each counted once, also where wrapping makes two of
/// them land on the same cell.
pub open spec fn live_neighbours(cells: Seq<Seq<bool>>, wrapping: bool, x: int, y: int) -> nat {
    one_if(alive_at(cells, wrapping, x - 1, y - 1))
        + one_if(alive_at(cells, wrapping, x, y - 1))
        + one_if(alive_at(cells, wrapping, x + 1, y - 1))
        + one_if(alive_at(cells, wrapping, x - 1, y))
        + one_if(alive_at(cells, wrapping, x + 1, y))
        + one_if(alive_at(cells, wrapping, x - 1, y + 1))
        + one_if(alive_at(cells, wrapping, x, y + 1))
        + one_if(alive_at(cells, wrapping, x + 1, y + 1))
}

/// The rule of the game: a living cell stays alive with two or three living
/// neighbours, a dead cell comes alive with exactly three.
pub open spec fn survives(alive: bool, living_neighbours: nat) -> bool {
    if alive {
        living_neighbours == 2 || living_neighbours == 3
    } else {
        living_neighbours == 3
    }
}

/// The state of the cell at `(x, y)` one generation later.
pub open spec fn next_cell(cells: Seq<Seq<bool>>, wrapping: bool, x: int, y: int) -> bool {
    survives(cells[y][x], live_neighbours(cells, wrapping, x, y))
}

/// The grid one generation later: every cell judged by the rule against the
/// grid as it was.
pub open spec fn next_generation(cells: Seq<Seq<bool>>, wrapping: bool) -> Seq<Seq<bool>> {
    Seq::new(
        cells.len(),
        |y: int| Seq::new(cells[y].len(), |x: int| next_cell(cells, wrapping, x, y)),
    )
}

/// A step keeps the number of rows and the length of each row, so a
/// rectangular grid stays rectangular.
pub proof fn lemma_next_generation_shape(cells: Seq<Seq<bool>>, wrapping: bool)
    ensures
        same_shape(cells, next_generation(cells, wrapping)),
        rectangular(cells) ==> rectangular(next_generation(cells, wrapping)),
{
    let next = next_generation(cells, wrapping);
    assert forall|y: int| 0 <= y < cells.len() implies (#[trigger] cells[y]).len()
        == next[y].len() by {}
    if rectangular(cells) {
        assert forall|y: int| 0 <= y < next.len() implies (#[trigger] next[y]).len()
            == next[0].len() by {}
    }
}

} // verus!
