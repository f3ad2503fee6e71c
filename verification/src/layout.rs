//! Layouts: grids written as text, one line per row.
//!
//! Reading a layout and rendering a grid are inverse to each other on the
//! two glyphs `#` and `.`; the proofs are at the end of this module.

use vstd::prelude::*;
use vstd::std_specs::iter::IteratorSpec;
use crate::cell::{row_view, Cell, ALIVE_GLYPH, DEAD_GLYPH};
use crate::grid::rectangular;

verus! {

/// The failure of reading a layout: its lines are not all of one length.
#[derive(Clone, Copy, Debug, PartialEq, Eq)]
pub struct InvalidLayout;

impl InvalidLayout {
    /// The failure in words.
    pub fn message(&self) -> (text: &'static str)
        ensures
            text@ == "invalid layout: inconsistent row length"@,
    {
        "invalid layout: inconsistent row length"
    }
}

/// The character that ends a line.
pub const LINE_FEED: char = '\n';

/// The character that may stand before a line feed and then belongs to the
/// line ending.
pub const CARRIAGE_RETURN: char = '\r';

/// Whether the first line of `text` ends at `end`: there stands its first
/// line feed, or, where it has none, the text is over.
pub open spec fn is_first_line_end(text: Seq<char>, end: int) -> bool {
    &&& 0 <= end <= text.len()
    &&& forall|i: int| 0 <= i < end ==> text[i] != LINE_FEED
    &&& end < text.len() ==> text[end] == LINE_FEED
}

/// Where the first line of `text` ends.
pub open spec fn first_line_end(text: Seq<char>) -> int {
    choose|end: int| is_first_line_end(text, end)
}

/// A line that was ended by a line feed, without the carriage return that
/// may have stood before it.
pub open spec fn without_carriage_return(line: Seq<char>) -> Seq<char> {
    if line.len() > 0 && line.last() == CARRIAGE_RETURN {
        line.drop_last()
    } else {
        line
    }
}

/// The lines of a text.
///
/// A line ends with a line feed, or with a carriage return and a line feed;
/// neither belongs to the line. The last line may do without an ending, so a
/// text that ends in a line ending has the same lines as the text without
/// it, and the empty text has no line.
pub open spec fn lines_of(text: Seq<char>) -> Seq<Seq<char>>
    decreases text.len(),
{
    let end = first_line_end(text);
    if text.len() == 0 {
        Seq::empty()
    } else if 0 <= end < text.len() {
        seq![without_carriage_return(text.take(end))] + lines_of(text.skip(end + 1))
    } else {
        seq![text]
    }
}

/// A text has only one place where its first line can end.
pub proof fn lemma_first_line_end(text: Seq<char>, end: int)
    requires
        is_first_line_end(text, end),
    ensures
        first_line_end(text) == end,
{
    // Of two such places the earlier one would hold a line feed, which the
    // later one rules out before itself.
    let chosen = first_line_end(text);
    if chosen < end {
        assert(text[chosen] == LINE_FEED);
    } else if end < chosen {
        assert(text[end] == LINE_FEED);
    }
}

/// Lines held in vectors as sequences of characters.
pub open spec fn lines_view(lines: Seq<Vec<char>>) -> Seq<Seq<char>> {
    Seq::new(lines.len(), |i: int| lines[i]@)
}

/// The characters of a string, in order.
pub fn collect_chars(text: &str) -> (chars: Vec<char>)
    ensures
        chars@ == text@,
{
    let mut chars: Vec<char> = Vec::new();
    for c in it: text.chars()
        invariant
            chars@ == it.seq().take(it.index()),
            it.seq() == text@,
    {
        chars.push(c);
    }
    chars
}

/// Splits a text into its lines.
pub fn split_lines(text: &Vec<char>) -> (lines: Vec<Vec<char>>)
    ensures
        lines_view(lines@) == lines_of(text@),
{
    let mut lines: Vec<Vec<char>> = Vec::new();
    let mut line: Vec<char> = Vec::new();
    let ghost mut start: int = 0;
    let mut i: usize = 0;
    proof {
        assert(text@.skip(0) == text@);
    }
    while i < text.len()
        invariant
            0 <= start <= i <= text.len(),
            line@ == text@.subrange(start, i as int),
            forall|k: int| start <= k < i ==> text@[k] != LINE_FEED,
            lines_of(text@) == lines_view(lines@) + lines_of(text@.skip(start)),
        decreases text.len() - i,
    {
        let c = text[i];
        if c == LINE_FEED {
            let ghost rest = text@.skip(start);
            let ghost whole = line@;
            proof {
                lemma_first_line_end(rest, i - start);
                assert(rest.take(i - start) == whole);
                assert(rest.skip(i - start + 1) == text@.skip(i + 1));
            }
            if line.len() > 0 && line[line.len() - 1] == CARRIAGE_RETURN {
                line.pop();
            }
            let ghost before = lines@;
            lines.push(line);
            line = Vec::new();
            proof {
                assert(lines_view(lines@) == lines_view(before) + seq![
                    without_carriage_return(whole),
                ]);
                start = i + 1;
            }
        } else {
            line.push(c);
        }
        i += 1;
    }
    let ghost rest = text@.skip(start);
    if line.len() > 0 {
        proof {
            lemma_first_line_end(rest, rest.len() as int);
        }
        lines.push(line);
    }
    lines
}

/// The grid that a layout describes: a row for each line, a cell for each
/// character, alive where the character is `#`.
pub open spec fn layout_cells(text: Seq<char>) -> Seq<Seq<bool>> {
    let lines = lines_of(text);
    Seq::new(
        lines.len(),
        |y: int| Seq::new(lines[y].len(), |x: int| lines[y][x] == ALIVE_GLYPH),
    )
}

/// Whether a layout describes a grid: every line has as many characters as
/// the first.
pub open spec fn valid_layout(text: Seq<char>) -> bool {
    forall|y: int|
        0 <= y < lines_of(text).len() ==> (#[trigger] lines_of(text)[y]).len() == lines_of(
            text,
        )[0].len()
}

/// The glyph that a cell is rendered as.
pub open spec fn glyph(alive: bool) -> char {
    if alive {
        ALIVE_GLYPH
    } else {
        DEAD_GLYPH
    }
}

/// A row as text: the glyph of each cell, then a line feed.
pub open spec fn render_row(row: Seq<bool>) -> Seq<char> {
    Seq::new(row.len(), |x: int| glyph(row[x])).push(LINE_FEED)
}

/// A grid as text: its rows as text, top row first.
pub open spec fn render_rows(cells: Seq<Seq<bool>>) -> Seq<char>
    decreases cells.len(),
{
    if cells.len() == 0 {
        Seq::empty()
    } else {
        render_row(cells.first()) + render_rows(cells.drop_first())
    }
}

/// The decimal digit for a number below ten.
pub open spec fn digit(d: nat) -> char {
    "0123456789"@[d as int]
}

/// A number in decimal digits, without leading zeros.
pub open spec fn decimal(n: nat) -> Seq<char>
    decreases n,
{
    if n < 10 {
        seq![digit(n)]
    } else {
        decimal(n / 10).push(digit(n % 10))
    }
}

/// The line that stands above a rendered grid and tells its generation.
pub open spec fn header(generation: nat) -> Seq<char> {
    "iteration "@ + decimal(generation) + ":\n"@
}

/// Rendering a grid with one more row at the bottom adds that row's text at
/// the end.
pub proof fn lemma_render_rows_push(cells: Seq<Seq<bool>>, row: Seq<bool>)
    ensures
        render_rows(cells.push(row)) == render_rows(cells) + render_row(row),
    decreases cells.len(),
{
    let longer = cells.push(row);
    if cells.len() == 0 {
        assert(longer.drop_first() == cells);
    } else {
        assert(longer.drop_first() == cells.drop_first().push(row));
        lemma_render_rows_push(cells.drop_first(), row);
    }
}

/// Appends the decimal digits of `n` to `out`.
pub fn append_decimal(out: &mut String, n: u64)
    ensures
        final(out)@ == old(out)@ + decimal(n as nat),
    decreases n,
{
    if n >= 10 {
        append_decimal(out, n / 10);
    }
    proof {
        reveal_strlit("0123456789");
    }
    let d: usize = (n % 10) as usize;
    let one = "0123456789".substring_char(d, d + 1);
    out.append(one);
}

/// Appends a row as text to `out`.
pub fn append_row(out: &mut String, row: &[Cell])
    ensures
        final(out)@ == old(out)@ + render_row(row_view(row@)),
{
    proof {
        reveal_strlit("\n");
    }
    let ghost glyphs = Seq::new(row@.len(), |x: int| glyph(row@[x].alive));
    let mut x: usize = 0;
    while x < row.len()
        invariant
            x <= row.len(),
            glyphs == Seq::new(row@.len(), |x: int| glyph(row@[x].alive)),
            out@ == old(out)@ + glyphs.take(x as int),
        decreases row.len() - x,
    {
        proof {
            reveal_strlit("#");
            reveal_strlit(".");
        }
        if row[x].alive {
            out.append("#");
        } else {
            out.append(".");
        }
        x += 1;
    }
    out.append("\n");
}

/// Whether a text is written in the two glyphs and line feeds alone.
pub open spec fn is_glyph_text(text: Seq<char>) -> bool {
    forall|i: int|
        0 <= i < text.len() ==> text[i] == ALIVE_GLYPH || text[i] == DEAD_GLYPH || text[i]
            == LINE_FEED
}

/// The text with a line feed at its end: the text itself where it is empty
/// or ends in one already.
pub open spec fn with_final_line_feed(text: Seq<char>) -> Seq<char> {
    if text.len() == 0 || text.last() == LINE_FEED {
        text
    } else {
        text.push(LINE_FEED)
    }
}

/// The glyphs of a grid, row by row, without line feeds.
pub open spec fn glyph_rows(cells: Seq<Seq<bool>>) -> Seq<Seq<char>> {
    Seq::new(cells.len(), |y: int| Seq::new(cells[y].len(), |x: int| glyph(cells[y][x])))
}

/// Every text has a place where its first line ends.
pub proof fn lemma_first_line_end_exists(text: Seq<char>)
    ensures
        is_first_line_end(text, first_line_end(text)),
    decreases text.len(),
{
    if text.len() == 0 {
        assert(is_first_line_end(text, 0));
    } else {
        let shorter = text.drop_last();
        lemma_first_line_end_exists(shorter);
        let end = first_line_end(shorter);
        if end < shorter.len() {
            assert forall|i: int| 0 <= i < end implies text[i] != LINE_FEED by {
                assert(text[i] == shorter[i]);
            }
            assert(is_first_line_end(text, end));
        } else {
            assert forall|i: int| 0 <= i < shorter.len() implies text[i] != LINE_FEED by {
                assert(text[i] == shorter[i]);
            }
            if text.last() == LINE_FEED {
                assert(is_first_line_end(text, text.len() - 1));
            } else {
                assert(is_first_line_end(text, text.len() as int));
            }
        }
    }
}

/// The lines of a rendered grid are its rows in glyphs.
pub proof fn lemma_lines_of_rendered(cells: Seq<Seq<bool>>)
    ensures
        lines_of(render_rows(cells)) == glyph_rows(cells),
    decreases cells.len(),
{
    if cells.len() > 0 {
        // The text starts with the glyphs of the first row and a line feed;
        // what follows is the rest of the grid, rendered.
        let text = render_rows(cells);
        let first = cells.first();
        let rest = cells.drop_first();
        let end = first.len() as int;
        lemma_first_line_end(text, end);
        assert(text.take(end) == Seq::new(first.len(), |x: int| glyph(first[x])));
        assert(text.skip(end + 1) == render_rows(rest));
        lemma_lines_of_rendered(rest);
    }
}

/// Rendering and reading back gives the grid that was rendered, and the
/// rendered text is a valid layout exactly where the rows of the grid are
/// all of one length.
pub proof fn lemma_read_rendered(cells: Seq<Seq<bool>>)
    ensures
        layout_cells(render_rows(cells)) == cells,
        valid_layout(render_rows(cells)) <==> rectangular(cells),
{
    let text = render_rows(cells);
    let lines = lines_of(text);
    let read = layout_cells(text);
    lemma_lines_of_rendered(cells);
    assert forall|y: int| 0 <= y < cells.len() implies read[y] == cells[y] by {}
    if rectangular(cells) {
        assert forall|y: int| 0 <= y < lines.len() implies (#[trigger] lines[y]).len()
            == lines[0].len() by {}
    }
    if valid_layout(text) {
        assert forall|y: int| 0 <= y < cells.len() implies (#[trigger] cells[y]).len()
            == cells[0].len() by {}
    }
}

/// Reading a layout written in the two glyphs and rendering the grid gives
/// the layout back, letter for letter, with a line feed after the last line
/// where the layout had none.
pub proof fn lemma_render_read(text: Seq<char>)
    requires
        is_glyph_text(text),
    ensures
        render_rows(layout_cells(text)) == with_final_line_feed(text),
    decreases text.len(),
{
    let cells = layout_cells(text);
    if text.len() > 0 {
        lemma_first_line_end_exists(text);
        let end = first_line_end(text);
        if end < text.len() {
            // The first line and its line feed come back as they are; the
            // rest of the text does by induction.
            let line = text.take(end);
            let head = text.take(end + 1);
            let rest = text.skip(end + 1);
            assert(without_carriage_return(line) == line);
            assert(is_glyph_text(rest));
            lemma_render_read(rest);
            assert(cells.drop_first() == layout_cells(rest));
            assert(render_row(cells.first()) == head);
            if rest.len() > 0 {
                assert(head + rest.push(LINE_FEED) == (head + rest).push(LINE_FEED));
            }
        } else {
            // The text is one line without an ending, which rendering adds.
            assert(render_row(cells.first()) == text.push(LINE_FEED));
            assert(render_rows(cells.drop_first()) == Seq::<char>::empty());
        }
    }
}

} // verus!
