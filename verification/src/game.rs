//! The simulation state and its operations.

use vstd::prelude::*;
use crate::cell::{cell_from_draw, cells_view, draw_is_alive, row_view, to_cell, Cell, ALIVE_GLYPH};
use crate::grid::{
    has_shape, lemma_next_generation_shape, next_cell, next_generation, rectangular, same_shape,
};
use crate::layout::{
    append_decimal, append_row, collect_chars, header, is_glyph_text, layout_cells,
    lemma_read_rendered, lemma_render_read, lemma_render_rows_push, lines_of, lines_view,
    render_rows, split_lines, valid_layout, with_final_line_feed, InvalidLayout,
};
use crate::neighbours::{get_neighbours, staying_alive};
use crate::random::{draw, generator_state, next_draw, seeded_generator, state_after};

verus! {

/// A grid of cells with the number of generations it has lived through and
/// its edge policy.
#[derive(Debug, PartialEq)]
pub struct Game {
    cells: Vec<Vec<Cell>>,
    iteration_count: u64,
    wrapping: bool,
}

/// What a [`Game`] stands for: the alive flags row by row, the generation
/// count, and whether the edges wrap around.
pub struct GameView {
    pub cells: Seq<Seq<bool>>,
    pub generation: nat,
    pub wrapping: bool,
}

impl View for Game {
    type V = GameView;

    closed spec fn view(&self) -> GameView {
        GameView {
            cells: cells_view(self.cells@),
            generation: self.iteration_count as nat,
            wrapping: self.wrapping,
        }
    }
}

impl Clone for Game {
    fn clone(&self) -> (copy: Game)
        ensures
            copy@ == self@,
    {
        proof {
            use_type_invariant(self);
        }
        let mut cells: Vec<Vec<Cell>> = Vec::new();
        let mut y: usize = 0;
        while y < self.cells.len()
            invariant
                y <= self.cells.len(),
                cells.len() == y,
                forall|i: int|
                    0 <= i < y ==> row_view((#[trigger] cells[i])@) == row_view(self.cells[i]@),
            decreases self.cells.len() - y,
        {
            let row = &self.cells[y];
            let mut copied: Vec<Cell> = Vec::new();
            let mut x: usize = 0;
            while x < row.len()
                invariant
                    x <= row.len(),
                    copied.len() == x,
                    forall|i: int| 0 <= i < x ==> (#[trigger] copied[i]).alive == row[i].alive,
                decreases row.len() - x,
            {
                copied.push(row[x].clone());
                x += 1;
            }
            cells.push(copied);
            y += 1;
        }
        assert(cells_view(cells@) == cells_view(self.cells@));
        Game { cells, iteration_count: self.iteration_count, wrapping: self.wrapping }
    }
}

/// The grid that the random fill makes for a seed: the draws of a generator
/// seeded with `seed`, one for each cell, row after row, each row left to
/// right.
pub open spec fn random_cells(width: nat, height: nat, seed: u64) -> Seq<Seq<bool>> {
    Seq::new(
        height,
        |y: int| Seq::new(width, |x: int| draw_is_alive(draw(seed, (y * width + x) as nat))),
    )
}

/// A state as text: the header with the generation, then the grid.
pub open spec fn rendered(state: GameView) -> Seq<char> {
    header(state.generation) + render_rows(state.cells)
}

impl Game {
    /// What holds of every game: all rows of its grid have one length.
    #[verifier::type_invariant]
    pub open spec fn well_formed(self) -> bool {
        rectangular(self@.cells)
    }

    /// A grid of `height` rows of `width` cells, filled from a pseudo-random
    /// generator seeded with `seed`, at generation zero.
    ///
    /// The same arguments always give the same grid.
    pub fn new(width: u16, height: u16, seed: u64, wrapping: bool) -> (game: Game)
        ensures
            game@ == (GameView {
                cells: random_cells(width as nat, height as nat, seed),
                generation: 0,
                wrapping,
            }),
            has_shape(game@.cells, width as nat, height as nat),
            rectangular(game@.cells),
    {
        let mut generator = seeded_generator(seed);
        let mut cells: Vec<Vec<Cell>> = Vec::new();
        let ghost target = random_cells(width as nat, height as nat, seed);
        let mut y: u16 = 0;
        while y < height
            invariant
                y <= height,
                cells.len() == y,
                target == random_cells(width as nat, height as nat, seed),
                generator_state(generator) == state_after(seed, (y * width) as nat),
                forall|i: int| 0 <= i < y ==> row_view((#[trigger] cells[i])@) == target[i],
            decreases height - y,
        {
            let mut row: Vec<Cell> = Vec::new();
            let mut x: u16 = 0;
            while x < width
                invariant
                    y < height,
                    x <= width,
                    row.len() == x,
                    generator_state(generator) == state_after(seed, (y * width + x) as nat),
                    forall|i: int|
                        0 <= i < x ==> (#[trigger] row[i]).alive == draw_is_alive(
                            draw(seed, (y * width + i) as nat),
                        ),
                decreases width - x,
            {
                let drawn = next_draw(&mut generator);
                row.push(cell_from_draw(drawn));
                x += 1;
            }
            assert(y * width + width == (y + 1) * width) by (nonlinear_arith);
            cells.push(row);
            y += 1;
        }
        assert(cells_view(cells@) == target);
        Game { cells, iteration_count: 0, wrapping }
    }

    /// The grid that a layout describes, at generation zero.
    ///
    /// Each line of the layout is a row, top row first; each character is a
    /// cell, alive where it is `#` and dead otherwise. Lines end with a line
    /// feed, which a carriage return may precede; the last line may do
    /// without. The layout is refused exactly where one of its lines differs
    /// in length, counted in characters, from the first. A layout without
    /// lines gives the grid without rows.
    pub fn from_specific(layout: &str, wrapping: bool) -> (made: Result<Game, InvalidLayout>)
        ensures
            match made {
                Ok(game) => {
                    &&& valid_layout(layout@)
                    &&& game@ == (GameView {
                        cells: layout_cells(layout@),
                        generation: 0,
                        wrapping,
                    })
                    &&& rectangular(game@.cells)
                },
                Err(_) => !valid_layout(layout@),
            },
    {
        let chars = collect_chars(layout);
        let lines = split_lines(&chars);
        let ghost target = layout_cells(layout@);
        let mut cells: Vec<Vec<Cell>> = Vec::new();
        let mut y: usize = 0;
        while y < lines.len()
            invariant
                lines_view(lines@) == lines_of(layout@),
                target == layout_cells(layout@),
                y <= lines.len(),
                cells.len() == y,
                forall|i: int| 0 <= i < y ==> (#[trigger] lines[i]).len() == lines[0].len(),
                forall|i: int| 0 <= i < y ==> row_view((#[trigger] cells[i])@) == target[i],
            decreases lines.len() - y,
        {
            let line = &lines[y];
            assert(line@ == lines_of(layout@)[y as int]);
            if line.len() != lines[0].len() {
                return Err(InvalidLayout);
            }
            let mut row: Vec<Cell> = Vec::new();
            let mut x: usize = 0;
            while x < line.len()
                invariant
                    x <= line.len(),
                    row.len() == x,
                    forall|i: int|
                        0 <= i < x ==> (#[trigger] row[i]).alive == (line[i] == ALIVE_GLYPH),
                decreases line.len() - x,
            {
                row.push(to_cell(line[x]));
                x += 1;
            }
            cells.push(row);
            y += 1;
        }
        proof {
            let read = lines_of(layout@);
            assert forall|i: int| 0 <= i < read.len() implies (#[trigger] read[i]).len()
                == read[0].len() by {}
            assert(cells_view(cells@) == target);
            assert forall|i: int| 0 <= i < target.len() implies (#[trigger] target[i]).len()
                == target[0].len() by {}
        }
        Ok(Game { cells, iteration_count: 0, wrapping })
    }

    /// The state one generation later.
    ///
    /// Every cell of the new grid is judged by the rule against the grid of
    /// `self`, which is left as it was. The grid keeps its shape and its
    /// edge policy, and the generation count grows by one.
    pub fn tick(&self) -> (next: Game)
        requires
            self@.generation < u64::MAX,
        ensures
            next@.cells == next_generation(self@.cells, self@.wrapping),
            next@.generation == self@.generation + 1,
            next@.wrapping == self@.wrapping,
            same_shape(self@.cells, next@.cells),
            rectangular(next@.cells),
    {
        proof {
            use_type_invariant(self);
            lemma_next_generation_shape(self@.cells, self@.wrapping);
        }
        let mut cells: Vec<Vec<Cell>> = Vec::new();
        let mut y: usize = 0;
        while y < self.cells.len()
            invariant
                y <= self.cells.len(),
                cells.len() == y,
                forall|i: int|
                    0 <= i < y ==> row_view((#[trigger] cells[i])@) == next_generation(
                        self@.cells,
                        self@.wrapping,
                    )[i],
            decreases self.cells.len() - y,
        {
            let old_row = &self.cells[y];
            let mut row: Vec<Cell> = Vec::new();
            let mut x: usize = 0;
            while x < old_row.len()
                invariant
                    y < self.cells.len(),
                    old_row == &self.cells[y as int],
                    x <= old_row.len(),
                    row.len() == x,
                    forall|i: int|
                        0 <= i < x ==> (#[trigger] row[i]).alive == next_cell(
                            self@.cells,
                            self@.wrapping,
                            i,
                            y as int,
                        ),
                decreases old_row.len() - x,
            {
                let neighbours = get_neighbours(self, x, y);
                let alive = staying_alive(&old_row[x], neighbours.as_slice());
                row.push(Cell { alive });
                x += 1;
            }
            cells.push(row);
            y += 1;
        }
        Game { cells, iteration_count: self.iteration_count + 1, wrapping: self.wrapping }
    }

    /// The rows of the grid, top row first, each row left to right.
    ///
    /// The rows are lent for reading: nothing a caller does with them
    /// changes the game.
    pub fn row_columns(&self) -> (rows: &Vec<Vec<Cell>>)
        ensures
            cells_view(rows@) == self@.cells,
            rows@.len() == self@.cells.len(),
            forall|y: int|
                0 <= y < rows@.len() ==> (#[trigger] rows@[y])@.len() == self@.cells[y].len(),
            rectangular(self@.cells),
    {
        proof {
            use_type_invariant(self);
        }
        &self.cells
    }

    /// The state as text: a line that tells the generation, then the rows,
    /// one line each, `#` for a living cell and `.` for a dead one.
    pub fn render(&self) -> (text: String)
        ensures
            text@ == rendered(self@),
    {
        let mut text = String::new();
        text.append("iteration ");
        append_decimal(&mut text, self.iteration_count);
        text.append(":\n");
        let ghost cells = self@.cells;
        let mut y: usize = 0;
        while y < self.cells.len()
            invariant
                y <= self.cells.len(),
                cells == self@.cells,
                text@ == header(self@.generation) + render_rows(cells.take(y as int)),
            decreases self.cells.len() - y,
        {
            append_row(&mut text, self.cells[y].as_slice());
            proof {
                assert(cells.take(y + 1) == cells.take(y as int).push(cells[y as int]));
                lemma_render_rows_push(cells.take(y as int), cells[y as int]);
            }
            y += 1;
        }
        assert(cells.take(y as int) == cells);
        text
    }

    /// The number of generations that lie behind this state.
    pub fn iteration_count(&self) -> (count: u64)
        ensures
            count == self@.generation,
    {
        self.iteration_count
    }

    /// Whether neighbours are looked up around the edges.
    pub fn wrapping(&self) -> (wrapping: bool)
        ensures
            wrapping == self@.wrapping,
    {
        self.wrapping
    }
}

/// A game read from a layout written in `#`, `.` and line feeds renders as
/// the header of generation zero followed by the layout itself, with a line
/// feed after the last line where the layout had none.
pub proof fn lemma_layout_round_trip(layout: Seq<char>, wrapping: bool)
    requires
        is_glyph_text(layout),
    ensures
        rendered(GameView { cells: layout_cells(layout), generation: 0, wrapping }) == header(0)
            + with_final_line_feed(layout),
{
    lemma_render_read(layout);
}

/// A rendered grid, read as a layout, is the grid that was rendered.
pub proof fn lemma_rendered_grid_reads_back(state: GameView)
    requires
        rectangular(state.cells),
    ensures
        valid_layout(render_rows(state.cells)),
        layout_cells(render_rows(state.cells)) == state.cells,
{
    lemma_read_rendered(state.cells);
}

} // verus!
