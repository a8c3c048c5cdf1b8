//! The automaton on an unbounded line, and how the grid shows it: as long as
//! the grid may grow, each of its rows is a window on the line that leaves
//! out inactive cells only.

use crate::grid::{
    cell, evolved, evolved_left, grown, grown_left, grown_right, initial, left_edge,
    lemma_evolved, lemma_grown_pads, lemma_initial_well_formed, lemma_widened_well_formed,
    lemma_with_row_well_formed, right_edge, seed_row, well_formed, widened, width, with_row, Grid,
};
use crate::rule::{binary_digit, binary_digits, outcome, weight};
use vstd::arithmetic::power2::lemma2_to64;
use vstd::prelude::*;

verus! {

/// The state, in generation `generation`, of the cell that lies `offset`
/// columns to the right of the seed on a line without ends.
pub open spec fn line_cell(rule: Seq<bool>, generation: nat, offset: int) -> bool
    decreases generation,
{
    if generation == 0 {
        offset == 0
    } else {
        outcome(
            rule,
            line_cell(rule, (generation - 1) as nat, offset - 1),
            line_cell(rule, (generation - 1) as nat, offset),
            line_cell(rule, (generation - 1) as nat, offset + 1),
        )
    }
}

/// The rows 0 to `last` of the grid show the line with the seed in column
/// `seed`: each cell of the grid is in the state of its cell on the line, and
/// the cells of the line that the grid leaves out are inactive.
pub open spec fn shows_line(grid: Grid, rule: Seq<bool>, seed: int, last: int) -> bool {
    forall|row: int, column: int|
        0 <= row <= last ==> #[trigger] cell(grid, row, column) == line_cell(
            rule,
            row as nat,
            column - seed,
        )
}

/// Row `row` is inactive at both edges.
pub open spec fn quiet(grid: Grid, row: int) -> bool {
    !left_edge(grid, row) && !right_edge(grid, row)
}

/// A rule under which a cell with three inactive ancestors stays inactive.
pub open spec fn calm(rule: Seq<bool>) -> bool {
    rule.len() == 8 && !rule[7]
}

/// Where the rows above `row` show the line and the row just above is quiet,
/// computing `row` makes it show the line too.
pub proof fn lemma_computed_shows_line(grid: Grid, rule: Seq<bool>, row: int, seed: int)
    requires
        well_formed(grid),
        1 <= row < grid.len(),
        calm(rule),
        shows_line(grid, rule, seed, row - 1),
        quiet(grid, row - 1),
    ensures
        shows_line(with_row(grid, rule, row), rule, seed, row),
{
    let computed = with_row(grid, rule, row);
    lemma_with_row_well_formed(grid, rule, row);
    assert(grid[row].len() == grid[0].len());
    assert(grid[row - 1].len() == grid[0].len());
    assert forall|r: int, column: int| 0 <= r <= row implies #[trigger] cell(computed, r, column)
        == line_cell(rule, r as nat, column - seed) by {
        if r < row {
            assert(computed[r] == grid[r]);
            assert(cell(grid, r, column) == line_cell(rule, r as nat, column - seed));
        } else {
            let above = row - 1;
            assert(cell(grid, above, column - 1) == line_cell(
                rule,
                above as nat,
                column - 1 - seed,
            ));
            assert(cell(grid, above, column) == line_cell(rule, above as nat, column - seed));
            assert(cell(grid, above, column + 1) == line_cell(
                rule,
                above as nat,
                column + 1 - seed,
            ));
            assert(!cell(grid, above, 0));
            assert(!cell(grid, above, width(grid) - 1));
        }
    }
}

/// Widening a grid that shows the line leaves it showing the line; a column
/// in front moves the seed one column to the right.
pub proof fn lemma_widened_shows_line(
    grid: Grid,
    rule: Seq<bool>,
    seed: int,
    last: int,
    left: bool,
    right: bool,
)
    requires
        well_formed(grid),
        shows_line(grid, rule, seed, last),
    ensures
        shows_line(widened(grid, left, right), rule, seed + weight(left), last),
{
    let wide = widened(grid, left, right);
    lemma_widened_well_formed(grid, left, right);
    assert forall|row: int, column: int| 0 <= row <= last implies #[trigger] cell(wide, row, column)
        == line_cell(rule, row as nat, column - (seed + weight(left))) by {
        assert(cell(grid, row, column - weight(left)) == line_cell(
            rule,
            row as nat,
            column - weight(left) - seed,
        ));
        if 0 <= row < grid.len() {
            assert(grid[row].len() == grid[0].len());
        }
    }
}

/// Where the rows above `row` show the line, the row just above is quiet and
/// the grid is narrower than `max_width`, growing `row` makes it show the
/// line and leaves it quiet; the grid gets at most one column on each side.
pub proof fn lemma_grown_shows_line(
    grid: Grid,
    rule: Seq<bool>,
    row: int,
    max_width: int,
    seed: int,
)
    requires
        well_formed(grid),
        1 <= row < grid.len(),
        calm(rule),
        width(grid) < max_width,
        shows_line(grid, rule, seed, row - 1),
        quiet(grid, row - 1),
    ensures
        shows_line(
            grown(grid, rule, row, max_width),
            rule,
            seed + grown_left(grid, rule, row, max_width),
            row,
        ),
        quiet(grown(grid, rule, row, max_width), row),
        grown_left(grid, rule, row, max_width) <= 1,
        grown_right(grid, rule, row, max_width) <= 1,
{
    let computed = with_row(grid, rule, row);
    let left = left_edge(computed, row);
    let right = right_edge(computed, row);
    lemma_with_row_well_formed(grid, rule, row);
    lemma_computed_shows_line(grid, rule, row, seed);
    if left || right {
        let wide = widened(computed, left, right);
        let moved = seed + weight(left);
        lemma_widened_well_formed(computed, left, right);
        lemma_widened_shows_line(computed, rule, seed, row, left, right);
        assert(quiet(wide, row - 1)) by {
            assert(cell(wide, row - 1, 0) == line_cell(rule, (row - 1) as nat, 0 - moved));
            assert(cell(computed, row - 1, -weight(left)) == line_cell(
                rule,
                (row - 1) as nat,
                0 - moved,
            ));
            assert(cell(wide, row - 1, width(wide) - 1) == line_cell(
                rule,
                (row - 1) as nat,
                width(wide) - 1 - moved,
            ));
            assert(cell(computed, row - 1, width(computed) - 1 + weight(right)) == line_cell(
                rule,
                (row - 1) as nat,
                width(wide) - 1 - moved,
            ));
            assert(computed[row - 1] == grid[row - 1]);
            assert(grid[row - 1].len() == grid[0].len());
        }
        lemma_computed_shows_line(wide, rule, row, moved);
        let again = with_row(wide, rule, row);
        lemma_with_row_well_formed(wide, rule, row);
        assert(quiet(again, row)) by {
            assert(cell(again, row, 0) == line_cell(rule, row as nat, 0 - moved));
            assert(cell(computed, row, -weight(left)) == line_cell(rule, row as nat, 0 - moved));
            assert(cell(again, row, width(again) - 1) == line_cell(
                rule,
                row as nat,
                width(again) - 1 - moved,
            ));
            assert(cell(computed, row, width(computed) - 1 + weight(right)) == line_cell(
                rule,
                row as nat,
                width(again) - 1 - moved,
            ));
            assert(computed[row].len() == computed[0].len());
        }
        assert(grown(wide, rule, row, max_width) == again);
        assert(grown_left(wide, rule, row, max_width) == 0);
        assert(grown_right(wide, rule, row, max_width) == 0);
    }
}

/// The grid shows the automaton as it runs on a line without ends. Where the
/// first row is inactive at both edges, the rule keeps a cell with three
/// inactive ancestors inactive, and `max_width` leaves room for two more
/// columns for each row, every row that has been grown holds the cells of its
/// generation on the line, the seed of the line being where the seed of the
/// grid has moved to, and the cells that the grid leaves out are inactive.
pub proof fn lemma_evolved_shows_line(
    grid: Grid,
    rule: Seq<bool>,
    max_width: int,
    last: nat,
    seed: int,
)
    requires
        well_formed(grid),
        last < grid.len(),
        calm(rule),
        grid[0] == seed_row(width(grid), seed),
        quiet(grid, 0),
        width(grid) + 2 * last <= max_width,
    ensures
        shows_line(
            evolved(grid, rule, max_width, last),
            rule,
            seed + evolved_left(grid, rule, max_width, last),
            last as int,
        ),
        quiet(evolved(grid, rule, max_width, last), last as int),
        width(evolved(grid, rule, max_width, last)) <= width(grid) + 2 * last,
    decreases last,
{
    if last == 0 {
        let found = choose|column: int|
            0 <= column < width(grid) && grid[0] == #[trigger] seed_row(width(grid), column);
        assert(seed_row(width(grid), found)[found]);
        assert(seed_row(width(grid), seed)[found] == (found == seed));
        assert forall|row: int, column: int| 0 <= row <= 0 implies #[trigger] cell(
            grid,
            row,
            column,
        ) == line_cell(rule, row as nat, column - seed) by {
            if 0 <= column < width(grid) {
                assert(seed_row(width(grid), seed)[column] == (column == seed));
            }
        }
    } else {
        let before = evolved(grid, rule, max_width, (last - 1) as nat);
        let moved = seed + evolved_left(grid, rule, max_width, (last - 1) as nat);
        lemma_evolved_shows_line(grid, rule, max_width, (last - 1) as nat, seed);
        lemma_evolved(grid, rule, max_width, (last - 1) as nat);
        lemma_grown_shows_line(before, rule, last as int, max_width, moved);
        lemma_grown_pads(before, rule, last as int, max_width, 0);
    }
}

/// A rule with an even number keeps a cell with three inactive ancestors
/// inactive, and no other rule does.
pub proof fn lemma_even_rules_are_calm(code: int)
    requires
        0 <= code <= 255,
    ensures
        calm(binary_digits(code)) <==> code % 2 == 0,
{
    lemma2_to64();
    assert(binary_digits(code)[7] == binary_digit(code, 7));
    assert(code / 1 == code);
}

/// A run from the start shows the line: a grid that starts at least three
/// columns wide has its seed away from both edges.
pub proof fn lemma_run_shows_line(
    rows: nat,
    columns: nat,
    rule: Seq<bool>,
    max_width: int,
    last: nat,
)
    requires
        columns >= 3,
        last < rows,
        calm(rule),
        columns + 2 * last <= max_width,
    ensures
        shows_line(
            evolved(initial(rows, columns), rule, max_width, last),
            rule,
            (columns - 1) / 2 + evolved_left(initial(rows, columns), rule, max_width, last),
            last as int,
        ),
{
    lemma_initial_well_formed(rows, columns);
    lemma_evolved_shows_line(
        initial(rows, columns),
        rule,
        max_width,
        last,
        (columns - 1) as int / 2,
    );
}

} // verus!
