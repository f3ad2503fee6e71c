//! The cell, and how rows of cells are read as rows of alive flags.

use vstd::prelude::*;

verus! {

/// One place of the grid: alive or dead.
#[derive(Debug, PartialEq)]
pub struct Cell {
    pub alive: bool,
}

impl Clone for Cell {
    fn clone(&self) -> (copy: Cell)
        ensures
            copy == *self,
    {
        Cell { alive: self.alive }
    }
}

/// A row of cells as the row of their alive flags.
pub open spec fn row_view(row: Seq<Cell>) -> Seq<bool> {
    Seq::new(row.len(), |x: int| row[x].alive)
}

/// Rows of cells as rows of alive flags.
pub open spec fn cells_view(rows: Seq<Vec<Cell>>) -> Seq<Seq<bool>> {
    Seq::new(rows.len(), |y: int| row_view(rows[y]@))
}

/// The alive flags of a list of borrowed cells, in the list's order.
pub open spec fn alive_of(cells: Seq<&Cell>) -> Seq<bool> {
    Seq::new(cells.len(), |i: int| cells[i].alive)
}

/// The glyph that stands for a living cell in a layout.
pub const ALIVE_GLYPH: char = '#';

/// The glyph that a dead cell is rendered as.
pub const DEAD_GLYPH: char = '.';

/// Reads one glyph of a layout: `#` is a living cell, any other glyph a
/// dead one.
pub fn to_cell(c: char) -> (cell: Cell)
    ensures
        cell.alive == (c == ALIVE_GLYPH),
{
    Cell { alive: c == ALIVE_GLYPH }
}

/// Whether a cell filled from the random number `drawn` is alive: it is
/// where the number is even.
pub open spec fn draw_is_alive(drawn: u32) -> bool {
    drawn % 2 == 0
}

/// The cell that the random fill makes of one drawn number.
pub fn cell_from_draw(drawn: u32) -> (cell: Cell)
    ensures
        cell.alive == draw_is_alive(drawn),
{
    Cell { alive: drawn % 2 == 0 }
}

} // verus!
