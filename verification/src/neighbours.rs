//! Looking up the neighbours of a cell, under both edge policies.

use vstd::prelude::*;
use vstd::arithmetic::div_mod::{
    lemma_fundamental_div_mod, lemma_fundamental_div_mod_converse, lemma_mod_bound,
    lemma_small_mod,
};
use crate::cell::{alive_of, cells_view, row_view, Cell};
use crate::game::Game;
use crate::grid::{alive_at, live_neighbours, one_if, rectangular, resolve, survives};

verus! {

/// The cell that position `x` of a row lands on, as a list of one state, or
/// the empty list where it lands nowhere.
pub open spec fn pick(row: Seq<bool>, wrapping: bool, x: int) -> Seq<bool> {
    match resolve(x, row.len(), wrapping) {
        Some(column) => seq![row[column]],
        None => Seq::empty(),
    }
}

/// The states found at the positions `x - 1`, `x` and `x + 1` of a row, in
/// that order.
pub open spec fn three_of_row(row: Seq<bool>, wrapping: bool, x: int) -> Seq<bool> {
    pick(row, wrapping, x - 1) + pick(row, wrapping, x) + pick(row, wrapping, x + 1)
}

/// The states found at the positions `x - 1` and `x + 1` of a row, in that
/// order.
pub open spec fn two_of_row(row: Seq<bool>, wrapping: bool, x: int) -> Seq<bool> {
    pick(row, wrapping, x - 1) + pick(row, wrapping, x + 1)
}

/// The states found around column `x` in the row that position `y` lands
/// on; none where `y` lands nowhere.
pub open spec fn three_of(cells: Seq<Seq<bool>>, wrapping: bool, x: int, y: int) -> Seq<bool> {
    match resolve(y, cells.len(), wrapping) {
        Some(row) => three_of_row(cells[row], wrapping, x),
        None => Seq::empty(),
    }
}

/// The states of the neighbours of the cell at `(x, y)`: those of the row
/// above, then the two beside the cell, then those of the row below.
pub open spec fn neighbours(cells: Seq<Seq<bool>>, wrapping: bool, x: int, y: int) -> Seq<bool> {
    three_of(cells, wrapping, x, y - 1) + two_of_row(cells[y], wrapping, x) + three_of(
        cells,
        wrapping,
        x,
        y + 1,
    )
}

/// How many of the states are alive.
pub open spec fn count_alive(states: Seq<bool>) -> nat
    decreases states.len(),
{
    if states.len() == 0 {
        0
    } else {
        count_alive(states.drop_last()) + one_if(states.last())
    }
}

/// Counting over two lists laid end to end is counting each and adding.
pub proof fn lemma_count_alive_concat(a: Seq<bool>, b: Seq<bool>)
    ensures
        count_alive(a + b) == count_alive(a) + count_alive(b),
    decreases b.len(),
{
    if b.len() > 0 {
        assert((a + b).drop_last() == a + b.drop_last());
        lemma_count_alive_concat(a, b.drop_last());
    }
}

proof fn lemma_count_alive_pick(row: Seq<bool>, wrapping: bool, x: int)
    ensures
        count_alive(pick(row, wrapping, x)) == one_if(
            match resolve(x, row.len(), wrapping) {
                Some(column) => row[column],
                None => false,
            },
        ),
{
    if let Some(column) = resolve(x, row.len(), wrapping) {
        assert(count_alive(seq![row[column]].drop_last()) == 0);
    }
}

proof fn lemma_count_alive_three_of(cells: Seq<Seq<bool>>, wrapping: bool, x: int, y: int)
    ensures
        count_alive(three_of(cells, wrapping, x, y)) == one_if(alive_at(cells, wrapping, x - 1, y))
            + one_if(alive_at(cells, wrapping, x, y)) + one_if(alive_at(cells, wrapping, x + 1, y)),
{
    match resolve(y, cells.len(), wrapping) {
        Some(r) => {
            let row = cells[r];
            lemma_count_alive_pick(row, wrapping, x - 1);
            lemma_count_alive_pick(row, wrapping, x);
            lemma_count_alive_pick(row, wrapping, x + 1);
            lemma_count_alive_concat(pick(row, wrapping, x - 1), pick(row, wrapping, x));
            lemma_count_alive_concat(
                pick(row, wrapping, x - 1) + pick(row, wrapping, x),
                pick(row, wrapping, x + 1),
            );
        },
        None => {},
    }
}

/// The living cells among the listed neighbours are as many as the eight
/// positions around `(x, y)` count.
pub proof fn lemma_count_alive_neighbours(cells: Seq<Seq<bool>>, wrapping: bool, x: int, y: int)
    requires
        0 <= y < cells.len(),
    ensures
        count_alive(neighbours(cells, wrapping, x, y)) == live_neighbours(cells, wrapping, x, y),
{
    let above = three_of(cells, wrapping, x, y - 1);
    let beside = two_of_row(cells[y], wrapping, x);
    let below = three_of(cells, wrapping, x, y + 1);
    lemma_count_alive_three_of(cells, wrapping, x, y - 1);
    lemma_count_alive_three_of(cells, wrapping, x, y + 1);
    lemma_count_alive_pick(cells[y], wrapping, x - 1);
    lemma_count_alive_pick(cells[y], wrapping, x + 1);
    lemma_count_alive_concat(pick(cells[y], wrapping, x - 1), pick(cells[y], wrapping, x + 1));
    lemma_count_alive_concat(above, beside);
    lemma_count_alive_concat(above + beside, below);
    assert(resolve(y, cells.len(), wrapping) == Some(y)) by {
        lemma_small_mod(y as nat, cells.len());
    }
}

/// With wrapping edges every cell of a rectangular grid has eight
/// neighbours, also where several of them are one and the same cell.
pub proof fn lemma_wrapping_neighbours_are_eight(cells: Seq<Seq<bool>>, x: int, y: int)
    requires
        rectangular(cells),
        0 <= y < cells.len(),
        cells[y].len() > 0,
    ensures
        neighbours(cells, true, x, y).len() == 8,
{
    let height = cells.len() as int;
    lemma_mod_bound(y - 1, height);
    lemma_mod_bound(y + 1, height);
    assert(cells[(y - 1) % height].len() == cells[0].len());
    assert(cells[(y + 1) % height].len() == cells[0].len());
}

/// Reduces `idx` to a place of an axis of `len` places by the mathematical
/// modulo, which is never negative: `-1` becomes `len - 1`, `len` becomes 0.
pub fn wrap(idx: i128, len: usize) -> (wrapped: usize)
    requires
        len > 0,
    ensures
        wrapped as int == idx as int % len as int,
        wrapped < len,
{
    let n: i128 = len as i128;
    if idx < 0 {
        let back: i128 = (-(idx + 1)) % n;
        proof {
            let m = -(idx as int + 1);
            lemma_fundamental_div_mod(m, n as int);
            let q = m / (n as int);
            let r = n as int - 1 - back as int;
            assert(idx as int == (-q - 1) * (n as int) + r) by {
                assert((-q - 1) * (n as int) == -((n as int) * q) - (n as int))
                    by (nonlinear_arith);
            }
            lemma_fundamental_div_mod_converse(idx as int, n as int, -q - 1, r);
        }
        (n - 1 - back) as usize
    } else {
        (idx % n) as usize
    }
}

/// The element at `idx`, if `idx` is a place of the list.
pub fn get_if_positive<T>(vec: &[T], idx: i128) -> (found: Option<&T>)
    ensures
        0 <= idx < vec@.len() ==> found == Some(&vec@[idx as int]),
        !(0 <= idx < vec@.len()) ==> found is None,
{
    if idx >= 0 && idx < vec.len() as i128 {
        vec.get(idx as usize)
    } else {
        None
    }
}

/// The element that `idx` lands on when the list wraps around; none only
/// where the list is empty.
pub fn get_wrapped<T>(vec: &[T], idx: i128) -> (found: Option<&T>)
    ensures
        vec@.len() > 0 ==> found == Some(&vec@[idx as int % vec@.len() as int]),
        vec@.len() == 0 ==> found is None,
{
    if vec.len() > 0 {
        vec.get(wrap(idx, vec.len()))
    } else {
        None
    }
}

/// The cell that position `idx` of a row lands on under the edge policy.
pub fn get_cell(row: &[Cell], idx: i128, wrapping: bool) -> (found: Option<&Cell>)
    ensures
        match resolve(idx as int, row@.len(), wrapping) {
            Some(column) => found == Some(&row@[column]),
            None => found is None,
        },
{
    if wrapping {
        get_wrapped(row, idx)
    } else {
        get_if_positive(row, idx)
    }
}

/// The cells of a row at the positions `x - 1`, `x` and `x + 1`, in that
/// order, leaving out a position that lands nowhere.
pub fn get_three_of_row(x: usize, row: &[Cell], wrapping: bool) -> (found: Vec<&Cell>)
    ensures
        alive_of(found@) == three_of_row(row_view(row@), wrapping, x as int),
{
    let mut found: Vec<&Cell> = Vec::new();
    if let Some(cell) = get_cell(row, x as i128 - 1, wrapping) {
        found.push(cell);
    }
    if let Some(cell) = get_cell(row, x as i128, wrapping) {
        found.push(cell);
    }
    assert(alive_of(found@) == pick(row_view(row@), wrapping, x as int - 1) + pick(
        row_view(row@),
        wrapping,
        x as int,
    ));
    if let Some(cell) = get_cell(row, x as i128 + 1, wrapping) {
        found.push(cell);
    }
    found
}

/// The cells beside the cell at `(x, y)`, left one first, leaving out a
/// position that lands nowhere.
pub fn get_two(game: &Game, x: usize, y: usize) -> (found: Vec<&Cell>)
    requires
        y < game@.cells.len(),
    ensures
        alive_of(found@) == two_of_row(game@.cells[y as int], game@.wrapping, x as int),
{
    let rows = game.row_columns();
    let wrapping = game.wrapping();
    let row = rows[y].as_slice();
    let mut found: Vec<&Cell> = Vec::new();
    if let Some(cell) = get_cell(row, x as i128 - 1, wrapping) {
        found.push(cell);
    }
    if let Some(cell) = get_cell(row, x as i128 + 1, wrapping) {
        found.push(cell);
    }
    found
}

/// With wrapping edges: the cells around column `x` in the row that `y`
/// lands on. Only a grid without rows has none.
pub fn get_wrapping(cells: &[Vec<Cell>], x: usize, y: i128) -> (found: Vec<&Cell>)
    ensures
        alive_of(found@) == three_of(cells_view(cells@), true, x as int, y as int),
{
    match get_wrapped(cells, y) {
        Some(row) => get_three_of_row(x, row.as_slice(), true),
        None => Vec::new(),
    }
}

/// With bounded edges: the cells around column `x` in row `y`, none where
/// `y` is no row of the grid.
pub fn get_or_empty(cells: &[Vec<Cell>], x: usize, y: i128) -> (found: Vec<&Cell>)
    ensures
        alive_of(found@) == three_of(cells_view(cells@), false, x as int, y as int),
{
    match get_if_positive(cells, y) {
        Some(row) => get_three_of_row(x, row.as_slice(), false),
        None => Vec::new(),
    }
}

/// The cells around column `x` in the row that `y` lands on under the
/// game's edge policy.
pub fn get_three(game: &Game, x: usize, y: i128) -> (found: Vec<&Cell>)
    ensures
        alive_of(found@) == three_of(game@.cells, game@.wrapping, x as int, y as int),
{
    let rows = game.row_columns();
    if game.wrapping() {
        get_wrapping(rows.as_slice(), x, y)
    } else {
        get_or_empty(rows.as_slice(), x, y)
    }
}

/// The neighbours of the cell at `(x, y)`: the row above, the two beside,
/// the row below. With wrapping edges there are always eight of them.
pub fn get_neighbours(game: &Game, x: usize, y: usize) -> (found: Vec<&Cell>)
    requires
        y < game@.cells.len(),
    ensures
        alive_of(found@) == neighbours(game@.cells, game@.wrapping, x as int, y as int),
        count_alive(alive_of(found@)) == live_neighbours(
            game@.cells,
            game@.wrapping,
            x as int,
            y as int,
        ),
        game@.wrapping && game@.cells[y as int].len() > 0 ==> found@.len() == 8,
{
    let mut found = get_three(game, x, y as i128 - 1);
    let mut same_row = get_two(game, x, y);
    let mut next_row = get_three(game, x, y as i128 + 1);
    let ghost above = found@;
    let ghost beside = same_row@;
    let ghost below = next_row@;
    found.append(&mut same_row);
    found.append(&mut next_row);
    proof {
        use_type_invariant(game);
        assert(alive_of(found@) == alive_of(above) + alive_of(beside) + alive_of(below));
        lemma_count_alive_neighbours(game@.cells, game@.wrapping, x as int, y as int);
        if game@.wrapping && game@.cells[y as int].len() > 0 {
            lemma_wrapping_neighbours_are_eight(game@.cells, x as int, y as int);
        }
    }
    found
}

/// Whether a cell with these neighbours lives in the next generation.
pub fn staying_alive(cell: &Cell, neighbours: &[&Cell]) -> (alive: bool)
    ensures
        alive == survives(cell.alive, count_alive(alive_of(neighbours@))),
{
    let mut alive_neighbours_count: usize = 0;
    let mut i: usize = 0;
    while i < neighbours.len()
        invariant
            i <= neighbours.len(),
            alive_neighbours_count <= i,
            alive_neighbours_count == count_alive(alive_of(neighbours@).take(i as int)),
        decreases neighbours.len() - i,
    {
        proof {
            let states = alive_of(neighbours@);
            assert(states.take(i + 1).drop_last() == states.take(i as int));
        }
        if neighbours[i].alive {
            alive_neighbours_count += 1;
        }
        i += 1;
    }
    proof {
        let states = alive_of(neighbours@);
        assert(states.take(i as int) == states);
    }
    if cell.alive {
        alive_neighbours_count == 2 || alive_neighbours_count == 3
    } else {
        alive_neighbours_count == 3
    }
}

} // verus!
