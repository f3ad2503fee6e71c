//! What the rule does to a few well-known patterns, proved for grids of
//! every size.

use vstd::prelude::*;
use vstd::arithmetic::div_mod::{
    lemma_fundamental_div_mod_converse, lemma_mod_bound, lemma_small_mod,
};
use crate::grid::{alive_at, live_neighbours, next_cell, next_generation, one_if, resolve};

verus! {

/// The grid of the given size in which the cell at `(x, y)` is alive where
/// `alive(x, y)` holds.
pub open spec fn grid_of(width: nat, height: nat, alive: spec_fn(int, int) -> bool) -> Seq<
    Seq<bool>,
> {
    Seq::new(height, |y: int| Seq::new(width, |x: int| alive(x, y)))
}

/// Whether `(x, y)` lies in the block of two by two cells whose upper left
/// corner is `(left, top)`.
pub open spec fn in_block(left: int, top: int, x: int, y: int) -> bool {
    left <= x <= left + 1 && top <= y <= top + 1
}

/// The grid whose living cells are one block of two by two cells.
pub open spec fn block(width: nat, height: nat, left: int, top: int) -> Seq<Seq<bool>> {
    grid_of(width, height, |x: int, y: int| in_block(left, top, x, y))
}

/// Where a position one step beside a place of an axis lands when the axis
/// wraps: on the neighbouring place, or on the far end of the axis.
pub proof fn lemma_resolve_beside(idx: int, len: nat)
    requires
        0 <= idx < len,
    ensures
        resolve(idx - 1, len, true) == Some(if idx == 0 { len - 1 } else { idx - 1 }),
        resolve(idx, len, true) == Some(idx),
        resolve(idx + 1, len, true) == Some(if idx == len - 1 { 0 } else { idx + 1 }),
{
    let n = len as int;
    lemma_small_mod(idx as nat, len);
    if idx == 0 {
        lemma_fundamental_div_mod_converse(idx - 1, n, -1, n - 1);
    } else {
        lemma_small_mod((idx - 1) as nat, len);
    }
    if idx == len - 1 {
        lemma_fundamental_div_mod_converse(idx + 1, n, 1, 0);
    } else {
        lemma_small_mod((idx + 1) as nat, len);
    }
}

/// Whether the neighbour position `(x, y)` lands on a cell of the grid at
/// which `alive` holds.
pub open spec fn holds_at(
    width: nat,
    height: nat,
    alive: spec_fn(int, int) -> bool,
    wrapping: bool,
    x: int,
    y: int,
) -> bool {
    match (resolve(x, width, wrapping), resolve(y, height, wrapping)) {
        (Some(column), Some(row)) => alive(column, row),
        _ => false,
    }
}

/// What a neighbour position of a cell of `grid_of` holds.
pub proof fn lemma_alive_at_grid_of(
    width: nat,
    height: nat,
    alive: spec_fn(int, int) -> bool,
    wrapping: bool,
    x: int,
    y: int,
)
    ensures
        alive_at(grid_of(width, height, alive), wrapping, x, y) == holds_at(
            width,
            height,
            alive,
            wrapping,
            x,
            y,
        ),
{
    if wrapping && height > 0 && width > 0 {
        lemma_mod_bound(y, height as int);
        lemma_mod_bound(x, width as int);
    }
}

/// The living neighbours of a cell of `grid_of`, counted by `alive` at the
/// eight positions around it.
pub proof fn lemma_live_neighbours_grid_of(
    width: nat,
    height: nat,
    alive: spec_fn(int, int) -> bool,
    wrapping: bool,
    x: int,
    y: int,
)
    ensures
        live_neighbours(grid_of(width, height, alive), wrapping, x, y) == one_if(
            holds_at(width, height, alive, wrapping, x - 1, y - 1),
        ) + one_if(holds_at(width, height, alive, wrapping, x, y - 1)) + one_if(
            holds_at(width, height, alive, wrapping, x + 1, y - 1),
        ) + one_if(holds_at(width, height, alive, wrapping, x - 1, y)) + one_if(
            holds_at(width, height, alive, wrapping, x + 1, y),
        ) + one_if(holds_at(width, height, alive, wrapping, x - 1, y + 1)) + one_if(
            holds_at(width, height, alive, wrapping, x, y + 1),
        ) + one_if(holds_at(width, height, alive, wrapping, x + 1, y + 1)),
{
    lemma_alive_at_grid_of(width, height, alive, wrapping, x - 1, y - 1);
    lemma_alive_at_grid_of(width, height, alive, wrapping, x, y - 1);
    lemma_alive_at_grid_of(width, height, alive, wrapping, x + 1, y - 1);
    lemma_alive_at_grid_of(width, height, alive, wrapping, x - 1, y);
    lemma_alive_at_grid_of(width, height, alive, wrapping, x + 1, y);
    lemma_alive_at_grid_of(width, height, alive, wrapping, x - 1, y + 1);
    lemma_alive_at_grid_of(width, height, alive, wrapping, x, y + 1);
    lemma_alive_at_grid_of(width, height, alive, wrapping, x + 1, y + 1);
}

proof fn lemma_block_cell(
    width: nat,
    height: nat,
    left: int,
    top: int,
    wrapping: bool,
    x: int,
    y: int,
)
    requires
        0 <= left,
        left + 1 < width,
        0 <= top,
        top + 1 < height,
        wrapping ==> width >= 3 && height >= 3,
        0 <= x < width,
        0 <= y < height,
    ensures
        next_cell(block(width, height, left, top), wrapping, x, y) == in_block(left, top, x, y),
{
    let alive = |x: int, y: int| in_block(left, top, x, y);
    lemma_resolve_beside(x, width);
    lemma_resolve_beside(y, height);
    lemma_live_neighbours_grid_of(width, height, alive, wrapping, x, y);
}

/// A block of two by two living cells in an otherwise dead grid is a still
/// life: one generation later the grid is the same.
///
/// With bounded edges the block may stand anywhere, also against an edge.
/// With wrapping edges the grid has to be at least three cells wide and
/// high, so that the block does not meet itself around the edges.
pub proof fn lemma_block_is_still(
    width: nat,
    height: nat,
    left: int,
    top: int,
    wrapping: bool,
)
    requires
        0 <= left,
        left + 1 < width,
        0 <= top,
        top + 1 < height,
        wrapping ==> width >= 3 && height >= 3,
    ensures
        next_generation(block(width, height, left, top), wrapping) == block(
            width,
            height,
            left,
            top,
        ),
{
    let cells = block(width, height, left, top);
    let next = next_generation(cells, wrapping);
    assert forall|y: int| 0 <= y < height implies #[trigger] next[y] == cells[y] by {
        assert forall|x: int| 0 <= x < width implies #[trigger] next[y][x] == cells[y][x] by {
            lemma_block_cell(width, height, left, top, wrapping, x, y);
        }
    }
}

/// Whether `idx` is `centre` or lands one step beside it on an axis of
/// `len` places.
pub open spec fn within_one(idx: int, centre: int, len: nat, wrapping: bool) -> bool {
    ||| idx == centre
    ||| resolve(centre - 1, len, wrapping) == Some(idx)
    ||| resolve(centre + 1, len, wrapping) == Some(idx)
}

/// The grid whose living cells are the upright line of three cells with
/// its middle at `(x, y) = (column, row)`.
pub open spec fn upright_blinker(
    width: nat,
    height: nat,
    column: int,
    row: int,
    wrapping: bool,
) -> Seq<Seq<bool>> {
    grid_of(
        width,
        height,
        |x: int, y: int| x == column && within_one(y, row, height, wrapping),
    )
}

/// The grid whose living cells are the level line of three cells with its
/// middle at `(x, y) = (column, row)`.
pub open spec fn level_blinker(
    width: nat,
    height: nat,
    column: int,
    row: int,
    wrapping: bool,
) -> Seq<Seq<bool>> {
    grid_of(
        width,
        height,
        |x: int, y: int| y == row && within_one(x, column, width, wrapping),
    )
}

/// Whether a blinker with its middle at `(column, row)` has room on the
/// grid: with bounded edges it keeps one cell away from every edge; with
/// wrapping edges it may stand anywhere, on a grid at least four cells wide
/// and high, so that it does not meet itself around the edges.
pub open spec fn blinker_has_room(
    width: nat,
    height: nat,
    column: int,
    row: int,
    wrapping: bool,
) -> bool {
    if wrapping {
        0 <= column < width && 0 <= row < height && width >= 4 && height >= 4
    } else {
        1 <= column < width - 1 && 1 <= row < height - 1
    }
}

proof fn lemma_upright_cell(
    width: nat,
    height: nat,
    column: int,
    row: int,
    wrapping: bool,
    x: int,
    y: int,
)
    requires
        blinker_has_room(width, height, column, row, wrapping),
        0 <= x < width,
        0 <= y < height,
    ensures
        next_cell(upright_blinker(width, height, column, row, wrapping), wrapping, x, y) == (y
            == row && within_one(x, column, width, wrapping)),
{
    let alive = |x: int, y: int| x == column && within_one(y, row, height, wrapping);
    if wrapping {
        lemma_resolve_beside(x, width);
        lemma_resolve_beside(y, height);
        lemma_resolve_beside(column, width);
        lemma_resolve_beside(row, height);
    }
    lemma_live_neighbours_grid_of(width, height, alive, wrapping, x, y);
}

proof fn lemma_level_cell(
    width: nat,
    height: nat,
    column: int,
    row: int,
    wrapping: bool,
    x: int,
    y: int,
)
    requires
        blinker_has_room(width, height, column, row, wrapping),
        0 <= x < width,
        0 <= y < height,
    ensures
        next_cell(level_blinker(width, height, column, row, wrapping), wrapping, x, y) == (x
            == column && within_one(y, row, height, wrapping)),
{
    let alive = |x: int, y: int| y == row && within_one(x, column, width, wrapping);
    if wrapping {
        lemma_resolve_beside(x, width);
        lemma_resolve_beside(y, height);
        lemma_resolve_beside(column, width);
        lemma_resolve_beside(row, height);
    }
    lemma_live_neighbours_grid_of(width, height, alive, wrapping, x, y);
}

/// A blinker with room on the grid has period two: the upright line of
/// three becomes the level line through the same middle, the level line
/// becomes the upright one, and so two generations later the grid is as it
/// was. With wrapping edges this holds also where the line reaches around
/// an edge.
pub proof fn lemma_blinker_blinks(
    width: nat,
    height: nat,
    column: int,
    row: int,
    wrapping: bool,
)
    requires
        blinker_has_room(width, height, column, row, wrapping),
    ensures
        next_generation(upright_blinker(width, height, column, row, wrapping), wrapping)
            == level_blinker(width, height, column, row, wrapping),
        next_generation(level_blinker(width, height, column, row, wrapping), wrapping)
            == upright_blinker(width, height, column, row, wrapping),
        next_generation(
            next_generation(upright_blinker(width, height, column, row, wrapping), wrapping),
            wrapping,
        ) == upright_blinker(width, height, column, row, wrapping),
{
    let upright = upright_blinker(width, height, column, row, wrapping);
    let level = level_blinker(width, height, column, row, wrapping);
    let after_upright = next_generation(upright, wrapping);
    let after_level = next_generation(level, wrapping);
    assert forall|y: int| 0 <= y < height implies #[trigger] after_upright[y] == level[y] by {
        assert forall|x: int| 0 <= x < width implies #[trigger] after_upright[y][x]
            == level[y][x] by {
            lemma_upright_cell(width, height, column, row, wrapping, x, y);
        }
    }
    assert forall|y: int| 0 <= y < height implies #[trigger] after_level[y] == upright[y] by {
        assert forall|x: int| 0 <= x < width implies #[trigger] after_level[y][x]
            == upright[y][x] by {
            lemma_level_cell(width, height, column, row, wrapping, x, y);
        }
    }
    assert(after_upright == level);
}

/// A cell without living neighbours is dead one generation later, whatever
/// it was before.
pub proof fn lemma_isolated_cell_dies(cells: Seq<Seq<bool>>, wrapping: bool, x: int, y: int)
    requires
        0 <= y < cells.len(),
        0 <= x < cells[y].len(),
        live_neighbours(cells, wrapping, x, y) == 0,
    ensures
        !next_generation(cells, wrapping)[y][x],
{
}

} // verus!
