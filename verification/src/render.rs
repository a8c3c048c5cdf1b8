//! Pictures of a grid: which columns are shown, and the glyphs or the
//! coloured squares that stand for the cells.

use crate::grid::{cell, rectangular, width, Grid};
use crate::simulation::Simulation;
use vstd::prelude::*;
use vstd::string::StringExecFns;

verus! {

/// The glyph of an active cell, a black square.
pub const ACTIVE_GLYPH: char = '\u{2B1B}';

/// The glyph of an inactive cell, a white square.
pub const INACTIVE_GLYPH: char = '\u{2B1C}';

/// A colour, by its red, green and blue parts.
#[derive(Clone, Copy, Debug, PartialEq, Eq, Structural)]
pub struct Color {
    pub red: u8,
    pub green: u8,
    pub blue: u8,
}

/// One filled square of the picture: its top left corner, the length of its
/// sides, and its colour.
#[derive(Clone, Copy, Debug, PartialEq, Eq, Structural)]
pub struct Tile {
    pub x: i32,
    pub y: i32,
    pub size: u32,
    pub color: Color,
}

/// The number of columns hidden on each side of a grid of `width` columns
/// when at most `max_drawing_length` columns are wanted: half the excess,
/// rounded down, or one column where there is no excess.
pub open spec fn hidden_columns(width: nat, max_drawing_length: nat) -> nat {
    if width > max_drawing_length {
        (width - max_drawing_length) as nat / 2
    } else {
        1
    }
}

/// The number of columns left once the hidden ones are gone from both sides.
pub open spec fn shown_columns(width: nat, max_drawing_length: nat) -> nat {
    let hidden = 2 * hidden_columns(width, max_drawing_length);
    if width >= hidden {
        (width - hidden) as nat
    } else {
        0
    }
}

/// The cells of `row` that are shown.
pub open spec fn shown(row: Seq<bool>, max_drawing_length: nat) -> Seq<bool> {
    Seq::new(
        shown_columns(row.len(), max_drawing_length),
        |column: int| row[hidden_columns(row.len(), max_drawing_length) + column],
    )
}

/// The glyph that stands for a cell.
pub open spec fn glyph(active: bool) -> char {
    if active {
        ACTIVE_GLYPH
    } else {
        INACTIVE_GLYPH
    }
}

/// The line of glyphs that stands for the shown cells of `row`.
pub open spec fn glyphs(row: Seq<bool>, max_drawing_length: nat) -> Seq<char> {
    shown(row, max_drawing_length).map_values(|active: bool| glyph(active))
}

/// The colour of a cell: black if it is active, white if not.
pub open spec fn shade(active: bool) -> Color {
    if active {
        Color { red: 0, green: 0, blue: 0 }
    } else {
        Color { red: 255, green: 255, blue: 255 }
    }
}

/// Whether the picture of `rows` rows of `columns` squares, each `cell_size`
/// long and high, lies within the coordinates that a tile can have.
pub open spec fn drawable(rows: nat, columns: nat, cell_size: nat) -> bool {
    rows * cell_size <= i32::MAX && columns * cell_size <= i32::MAX
}

/// The square for the shown cell `column` of row `row`.
pub open spec fn tile(
    grid: Grid,
    max_drawing_length: nat,
    cell_size: nat,
    row: int,
    column: int,
) -> Tile {
    Tile {
        x: (column * cell_size) as i32,
        y: (row * cell_size) as i32,
        size: cell_size as u32,
        color: shade(shown(grid[row], max_drawing_length)[column]),
    }
}

/// The squares for the shown cells of row `row`, from left to right.
pub open spec fn row_tiles(grid: Grid, max_drawing_length: nat, cell_size: nat, row: int) -> Seq<
    Tile,
> {
    Seq::new(
        shown_columns(width(grid), max_drawing_length),
        |column: int| tile(grid, max_drawing_length, cell_size, row, column),
    )
}

/// The squares for the first `rows` rows, row after row.
pub open spec fn tiles(grid: Grid, max_drawing_length: nat, cell_size: nat, rows: nat) -> Seq<Tile>
    decreases rows,
{
    if rows == 0 {
        Seq::empty()
    } else {
        tiles(grid, max_drawing_length, cell_size, (rows - 1) as nat) + row_tiles(
            grid,
            max_drawing_length,
            cell_size,
            rows - 1,
        )
    }
}

/// The colour that the canvas is cleared with before the squares are drawn.
pub fn background() -> (color: Color)
    ensures
        color == (Color { red: 255, green: 0, blue: 0 }),
{
    Color { red: 255, green: 0, blue: 0 }
}

/// The colour of a cell: black if it is active, white if not.
pub fn cell_color(active: bool) -> (color: Color)
    ensures
        color == shade(active),
{
    if active {
        Color { red: 0, green: 0, blue: 0 }
    } else {
        Color { red: 255, green: 255, blue: 255 }
    }
}

/// The number of columns to hide on each side of a grid of `width` columns
/// when at most `max_drawing_length` columns are wanted.
pub fn crop_amount(width: usize, max_drawing_length: usize) -> (hidden: usize)
    ensures
        hidden == hidden_columns(width as nat, max_drawing_length as nat),
{
    if width > max_drawing_length {
        (width - max_drawing_length) / 2
    } else {
        1
    }
}

/// The number of columns left once `crop_amount` columns are gone from both
/// sides.
pub fn visible_width(width: usize, max_drawing_length: usize) -> (columns: usize)
    ensures
        columns == shown_columns(width as nat, max_drawing_length as nat),
{
    let hidden = crop_amount(width, max_drawing_length);
    if hidden <= width / 2 {
        width - 2 * hidden
    } else {
        0
    }
}

impl Simulation {
    /// The picture of the grid in glyphs: one line for each row, one glyph
    /// for each shown cell.
    pub fn render_text(&self, max_drawing_length: usize) -> (lines: Vec<String>)
        requires
            self.wf(),
        ensures
            lines@.len() == self@.len(),
            forall|row: int|
                0 <= row < self@.len() ==> (#[trigger] lines@[row])@ == glyphs(
                    self@[row],
                    max_drawing_length as nat,
                ),
    {
        let rows = self.rows();
        let columns = self.width();
        let hidden = crop_amount(columns, max_drawing_length);
        let visible = visible_width(columns, max_drawing_length);
        let mut lines: Vec<String> = Vec::new();
        let mut r: usize = 0;
        while r < rows
            invariant
                self.wf(),
                r <= rows,
                rows == self@.len(),
                columns == width(self@),
                hidden == hidden_columns(columns as nat, max_drawing_length as nat),
                visible == shown_columns(columns as nat, max_drawing_length as nat),
                lines@.len() == r,
                forall|row: int|
                    0 <= row < r ==> (#[trigger] lines@[row])@ == glyphs(
                        self@[row],
                        max_drawing_length as nat,
                    ),
            decreases rows - r,
        {
            assert(self@[r as int].len() == self@[0].len());
            let mut line = String::new();
            let mut c: usize = 0;
            while c < visible
                invariant
                    c <= visible,
                    r < self@.len(),
                    self@[r as int].len() == columns,
                    hidden == hidden_columns(columns as nat, max_drawing_length as nat),
                    visible == shown_columns(columns as nat, max_drawing_length as nat),
                    line@ == glyphs(self@[r as int], max_drawing_length as nat).take(c as int),
                decreases visible - c,
            {
                let ghost so_far = line@;
                proof {
                    reveal_strlit("\u{2B1B}");
                    reveal_strlit("\u{2B1C}");
                }
                if *self.get(r, hidden + c) {
                    line.append("\u{2B1B}");
                } else {
                    line.append("\u{2B1C}");
                }
                proof {
                    let whole = glyphs(self@[r as int], max_drawing_length as nat);
                    assert(line@ =~= so_far.push(whole[c as int]));
                    assert(whole.take(c + 1) =~= whole.take(c as int).push(whole[c as int]));
                }
                c += 1;
            }
            proof {
                let whole = glyphs(self@[r as int], max_drawing_length as nat);
                assert(whole.take(visible as int) =~= whole);
            }
            lines.push(line);
            r += 1;
        }
        lines
    }

    /// The picture of the grid in squares of `cell_size` by `cell_size`: one
    /// square for each shown cell, row after row and from left to right in
    /// each row. There is no picture if it would reach beyond the
    /// coordinates that a tile can have.
    pub fn render_tiles(&self, max_drawing_length: usize, cell_size: u32) -> (picture: Option<
        Vec<Tile>,
    >)
        requires
            self.wf(),
        ensures
            picture is Some <==> drawable(
                self@.len(),
                shown_columns(width(self@), max_drawing_length as nat),
                cell_size as nat,
            ),
            picture matches Some(squares) ==> squares@ == tiles(
                self@,
                max_drawing_length as nat,
                cell_size as nat,
                self@.len(),
            ),
    {
        let rows = self.rows();
        let columns = self.width();
        let hidden = crop_amount(columns, max_drawing_length);
        let visible = visible_width(columns, max_drawing_length);
        let limit = i32::MAX as u128;
        assert(rows * cell_size <= 0xffff_ffff_ffff_ffff * 0xffff_ffff && visible * cell_size
            <= 0xffff_ffff_ffff_ffff * 0xffff_ffff) by (nonlinear_arith)
            requires
                rows <= 0xffff_ffff_ffff_ffff,
                visible <= 0xffff_ffff_ffff_ffff,
                cell_size <= 0xffff_ffff,
        ;
        if rows as u128 * (cell_size as u128) > limit || visible as u128 * (cell_size as u128)
            > limit {
            return None;
        }
        let mut squares: Vec<Tile> = Vec::new();
        let mut r: usize = 0;
        while r < rows
            invariant
                self.wf(),
                r <= rows,
                rows == self@.len(),
                columns == width(self@),
                hidden == hidden_columns(columns as nat, max_drawing_length as nat),
                visible == shown_columns(columns as nat, max_drawing_length as nat),
                drawable(rows as nat, visible as nat, cell_size as nat),
                squares@ == tiles(self@, max_drawing_length as nat, cell_size as nat, r as nat),
            decreases rows - r,
        {
            assert(self@[r as int].len() == self@[0].len());
            assert(r * cell_size <= rows * cell_size) by (nonlinear_arith)
                requires
                    r <= rows,
            ;
            let y = (r as u64 * (cell_size as u64)) as i32;
            let ghost above = squares@;
            let ghost whole = row_tiles(
                self@,
                max_drawing_length as nat,
                cell_size as nat,
                r as int,
            );
            let mut c: usize = 0;
            while c < visible
                invariant
                    c <= visible,
                    r < self@.len(),
                    y == r * cell_size,
                    self@[r as int].len() == columns,
                    columns == width(self@),
                    hidden == hidden_columns(columns as nat, max_drawing_length as nat),
                    visible == shown_columns(columns as nat, max_drawing_length as nat),
                    visible * cell_size <= i32::MAX,
                    whole == row_tiles(
                        self@,
                        max_drawing_length as nat,
                        cell_size as nat,
                        r as int,
                    ),
                    squares@ == above + whole.take(c as int),
                decreases visible - c,
            {
                assert(c * cell_size <= visible * cell_size) by (nonlinear_arith)
                    requires
                        c <= visible,
                ;
                let x = (c as u64 * (cell_size as u64)) as i32;
                let color = cell_color(*self.get(r, hidden + c));
                squares.push(Tile { x, y, size: cell_size, color });
                proof {
                    assert(whole.take(c + 1) =~= whole.take(c as int).push(whole[c as int]));
                    assert(squares@ =~= above + whole.take(c + 1));
                }
                c += 1;
            }
            proof {
                assert(whole.take(visible as int) =~= whole);
            }
            r += 1;
        }
        Some(squares)
    }
}

/// As many columns are hidden on the left as on the right, and where the grid
/// is wider than wanted, the wanted number of columns is shown, or one more if
/// the excess is odd.
pub proof fn lemma_shown_columns(width: nat, max_drawing_length: nat)
    ensures
        width >= 2 || width > max_drawing_length ==> hidden_columns(width, max_drawing_length)
            + shown_columns(width, max_drawing_length) + hidden_columns(width, max_drawing_length)
            == width,
        width > max_drawing_length ==> shown_columns(width, max_drawing_length)
            == max_drawing_length + (width - max_drawing_length) % 2,
{
}

/// The picture holds one square for each shown cell, and the square of the
/// shown cell `column` of row `row` stands behind those of the rows above and
/// of the cells to its left.
pub proof fn lemma_tiles_index(
    grid: Grid,
    max_drawing_length: nat,
    cell_size: nat,
    rows: nat,
    row: int,
    column: int,
)
    requires
        0 <= row < rows,
        0 <= column < shown_columns(width(grid), max_drawing_length),
    ensures
        tiles(grid, max_drawing_length, cell_size, rows).len() == rows * shown_columns(
            width(grid),
            max_drawing_length,
        ),
        0 <= row * shown_columns(width(grid), max_drawing_length) + column < rows * shown_columns(
            width(grid),
            max_drawing_length,
        ),
        tiles(grid, max_drawing_length, cell_size, rows)[row * shown_columns(
            width(grid),
            max_drawing_length,
        ) + column] == tile(grid, max_drawing_length, cell_size, row, column),
    decreases rows,
{
    let columns = shown_columns(width(grid), max_drawing_length);
    lemma_tiles_len(grid, max_drawing_length, cell_size, rows);
    lemma_tiles_len(grid, max_drawing_length, cell_size, (rows - 1) as nat);
    assert(row * columns + column < rows * columns && 0 <= row * columns) by (nonlinear_arith)
        requires
            0 <= row < rows,
            0 <= column < columns,
    ;
    if row < rows - 1 {
        lemma_tiles_index(grid, max_drawing_length, cell_size, (rows - 1) as nat, row, column);
    }
}

/// The picture of `rows` rows holds one square for each of their shown cells.
pub proof fn lemma_tiles_len(grid: Grid, max_drawing_length: nat, cell_size: nat, rows: nat)
    ensures
        tiles(grid, max_drawing_length, cell_size, rows).len() == rows * shown_columns(
            width(grid),
            max_drawing_length,
        ),
    decreases rows,
{
    let columns = shown_columns(width(grid), max_drawing_length);
    if rows > 0 {
        lemma_tiles_len(grid, max_drawing_length, cell_size, (rows - 1) as nat);
        assert(rows * columns == (rows - 1) * columns + columns) by (nonlinear_arith);
    } else {
        assert(rows * columns == 0) by (nonlinear_arith)
            requires
                rows == 0,
        ;
    }
}

} // verus!
