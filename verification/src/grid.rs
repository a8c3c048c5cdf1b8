//! The mathematical model of the history grid: one row of cells for each
//! generation, and what computing a row and widening the grid do to it.

use crate::rule::{outcome, weight};
use vstd::prelude::*;

verus! {

/// The rows of the grid, oldest first; each row lists its cells from left to
/// right, `true` for an active cell.
pub type Grid = Seq<Seq<bool>>;

/// The number of columns, read off the first row.
pub open spec fn width(grid: Grid) -> nat {
    if grid.len() == 0 {
        0
    } else {
        grid[0].len()
    }
}

/// A grid has at least one row and one column, and all rows are equally long.
pub open spec fn rectangular(grid: Grid) -> bool {
    &&& grid.len() >= 1
    &&& grid[0].len() >= 1
    &&& forall|row: int| 0 <= row < grid.len() ==> (#[trigger] grid[row]).len() == grid[0].len()
}

/// A row of `width` cells of which only the one at `column` is active.
pub open spec fn seed_row(width: nat, column: int) -> Seq<bool> {
    Seq::new(width, |c: int| c == column)
}

/// A row of `width` inactive cells.
pub open spec fn blank_row(width: nat) -> Seq<bool> {
    Seq::new(width, |c: int| false)
}

/// The first row holds exactly one active cell.
pub open spec fn seeded(grid: Grid) -> bool {
    exists|column: int|
        0 <= column < width(grid) && grid[0] == #[trigger] seed_row(width(grid), column)
}

/// What holds of the grid of every simulation: it is rectangular and its
/// first row holds the seed and nothing else.
pub open spec fn well_formed(grid: Grid) -> bool {
    rectangular(grid) && seeded(grid)
}

/// The grid before any generation has been computed: `rows` rows of `width`
/// inactive cells, but for the seed in the middle of the first row.
pub open spec fn initial(rows: nat, width: nat) -> Grid {
    Seq::new(
        rows,
        |row: int|
            if row == 0 {
                seed_row(width, (width - 1) / 2)
            } else {
                blank_row(width)
            },
    )
}

/// The state of the cell at `row` and `column`; a cell outside the grid is
/// inactive.
pub open spec fn cell(grid: Grid, row: int, column: int) -> bool {
    if 0 <= row < grid.len() && 0 <= column < grid[row].len() {
        grid[row][column]
    } else {
        false
    }
}

/// The three cells above the cell at `row` and `column`: to its left, straight
/// above, and to its right. The leftmost column has no left ancestor.
pub open spec fn ancestors(grid: Grid, row: int, column: int) -> (bool, bool, bool) {
    (
        if column == 0 {
            false
        } else {
            cell(grid, row - 1, column - 1)
        },
        cell(grid, row - 1, column),
        cell(grid, row - 1, column + 1),
    )
}

/// The state that `rule` gives the cell at `row` and `column`.
pub open spec fn next_cell(grid: Grid, rule: Seq<bool>, row: int, column: int) -> bool {
    let (left, center, right) = ancestors(grid, row, column);
    outcome(rule, left, center, right)
}

/// Row `row` as `rule` derives it from the row above.
pub open spec fn next_row(grid: Grid, rule: Seq<bool>, row: int) -> Seq<bool> {
    Seq::new(grid[row].len(), |column: int| next_cell(grid, rule, row, column))
}

/// The grid with row `row` computed afresh from the row above.
pub open spec fn with_row(grid: Grid, rule: Seq<bool>, row: int) -> Grid {
    if 0 <= row < grid.len() {
        grid.update(row, next_row(grid, rule, row))
    } else {
        grid
    }
}

/// The grid with one inactive column put in front of every row.
pub open spec fn widened_left(grid: Grid) -> Grid {
    Seq::new(grid.len(), |row: int| seq![false] + grid[row])
}

/// The grid with one inactive column put behind every row.
pub open spec fn widened_right(grid: Grid) -> Grid {
    Seq::new(grid.len(), |row: int| grid[row].push(false))
}

/// The grid widened on each side on which `left` or `right` asks for it.
pub open spec fn widened(grid: Grid, left: bool, right: bool) -> Grid {
    let first = if left {
        widened_left(grid)
    } else {
        grid
    };
    if right {
        widened_right(first)
    } else {
        first
    }
}

/// Whether the first cell of row `row` is active.
pub open spec fn left_edge(grid: Grid, row: int) -> bool {
    cell(grid, row, 0)
}

/// Whether the last cell of row `row` is active.
pub open spec fn right_edge(grid: Grid, row: int) -> bool {
    cell(grid, row, width(grid) - 1)
}

/// The grid after row `row` has been computed and the grid widened until
/// the row touches neither edge, or the grid is `max_width` wide or wider.
///
/// The row is computed; while the grid is narrower than `max_width` and the
/// row is active at an edge, a column is added on that side (on both, if both
/// edges are active) and the row is computed again.
pub open spec fn grown(grid: Grid, rule: Seq<bool>, row: int, max_width: int) -> Grid
    decreases max_width + 1 - width(grid),
    via grown_decreases
{
    let computed = with_row(grid, rule, row);
    let left = left_edge(computed, row);
    let right = right_edge(computed, row);
    if 1 <= row < grid.len() && width(grid) < max_width && (left || right) {
        grown(widened(computed, left, right), rule, row, max_width)
    } else {
        computed
    }
}

#[via_fn]
proof fn grown_decreases(grid: Grid, rule: Seq<bool>, row: int, max_width: int) {
    lemma_growth_widens(grid, rule, row);
}

/// Where the computed row is active at an edge, widening makes the grid
/// wider.
proof fn lemma_growth_widens(grid: Grid, rule: Seq<bool>, row: int)
    ensures
        ({
            let computed = with_row(grid, rule, row);
            let left = left_edge(computed, row);
            let right = right_edge(computed, row);
            1 <= row < grid.len() && (left || right) ==> width(widened(computed, left, right))
                > width(grid)
        }),
{
    let computed = with_row(grid, rule, row);
    let left = left_edge(computed, row);
    let right = right_edge(computed, row);
    if 1 <= row < grid.len() && (left || right) {
        assert(computed[0] == grid[0]);
        assert(widened_left(computed)[0].len() == grid[0].len() + 1);
        assert(widened_right(computed)[0].len() == grid[0].len() + 1);
        assert(widened_right(widened_left(computed))[0].len() == grid[0].len() + 2);
    }
}

/// The number of columns that growing row `row` puts in front of the grid.
pub open spec fn grown_left(grid: Grid, rule: Seq<bool>, row: int, max_width: int) -> nat
    decreases max_width + 1 - width(grid),
    via grown_left_decreases
{
    let computed = with_row(grid, rule, row);
    let left = left_edge(computed, row);
    let right = right_edge(computed, row);
    if 1 <= row < grid.len() && width(grid) < max_width && (left || right) {
        weight(left) as nat + grown_left(widened(computed, left, right), rule, row, max_width)
    } else {
        0
    }
}

#[via_fn]
proof fn grown_left_decreases(grid: Grid, rule: Seq<bool>, row: int, max_width: int) {
    lemma_growth_widens(grid, rule, row);
}

/// The number of columns that growing row `row` puts behind the grid.
pub open spec fn grown_right(grid: Grid, rule: Seq<bool>, row: int, max_width: int) -> nat
    decreases max_width + 1 - width(grid),
    via grown_right_decreases
{
    let computed = with_row(grid, rule, row);
    let left = left_edge(computed, row);
    let right = right_edge(computed, row);
    if 1 <= row < grid.len() && width(grid) < max_width && (left || right) {
        weight(right) as nat + grown_right(widened(computed, left, right), rule, row, max_width)
    } else {
        0
    }
}

#[via_fn]
proof fn grown_right_decreases(grid: Grid, rule: Seq<bool>, row: int, max_width: int) {
    lemma_growth_widens(grid, rule, row);
}

/// `row` with `left` inactive cells in front of it and `right` behind it.
pub open spec fn padded(row: Seq<bool>, left: nat, right: nat) -> Seq<bool> {
    blank_row(left) + row + blank_row(right)
}

/// The grid after the rows 1 to `last` have been grown in turn.
pub open spec fn evolved(grid: Grid, rule: Seq<bool>, max_width: int, last: nat) -> Grid
    decreases last,
{
    if last == 0 {
        grid
    } else {
        grown(evolved(grid, rule, max_width, (last - 1) as nat), rule, last as int, max_width)
    }
}

/// A grid with at least one row and one column starts out well formed.
pub proof fn lemma_initial_well_formed(rows: nat, width: nat)
    requires
        rows >= 1,
        width >= 1,
    ensures
        well_formed(initial(rows, width)),
        initial(rows, width).len() == rows,
        self::width(initial(rows, width)) == width,
{
    let grid = initial(rows, width);
    let middle = (width - 1) / 2;
    assert(grid[0] == seed_row(self::width(grid), middle));
}

/// Computing a row changes that row alone and keeps its length.
pub proof fn lemma_with_row_well_formed(grid: Grid, rule: Seq<bool>, row: int)
    requires
        well_formed(grid),
        1 <= row,
    ensures
        well_formed(with_row(grid, rule, row)),
        with_row(grid, rule, row).len() == grid.len(),
        width(with_row(grid, rule, row)) == width(grid),
{
    let computed = with_row(grid, rule, row);
    let seed = choose|column: int|
        0 <= column < width(grid) && grid[0] == #[trigger] seed_row(width(grid), column);
    assert(computed[0] == grid[0]);
    assert forall|other: int| 0 <= other < computed.len() implies (#[trigger] computed[other]).len()
        == computed[0].len() by {
        assert(grid[other].len() == grid[0].len());
    }
    assert(computed[0] == seed_row(width(computed), seed));
}

/// A column added on the left keeps the grid well formed and moves the seed
/// one column to the right.
pub proof fn lemma_widened_left_well_formed(grid: Grid)
    requires
        well_formed(grid),
    ensures
        well_formed(widened_left(grid)),
        widened_left(grid).len() == grid.len(),
        width(widened_left(grid)) == width(grid) + 1,
{
    let wide = widened_left(grid);
    let seed = choose|column: int|
        0 <= column < width(grid) && grid[0] == #[trigger] seed_row(width(grid), column);
    assert forall|other: int| 0 <= other < wide.len() implies (#[trigger] wide[other]).len()
        == wide[0].len() by {
        assert(grid[other].len() == grid[0].len());
    }
    assert(wide[0] =~= seed_row(width(wide), seed + 1));
}

/// A column added on the right keeps the grid well formed and leaves the seed
/// where it is.
pub proof fn lemma_widened_right_well_formed(grid: Grid)
    requires
        well_formed(grid),
    ensures
        well_formed(widened_right(grid)),
        widened_right(grid).len() == grid.len(),
        width(widened_right(grid)) == width(grid) + 1,
{
    let wide = widened_right(grid);
    let seed = choose|column: int|
        0 <= column < width(grid) && grid[0] == #[trigger] seed_row(width(grid), column);
    assert forall|other: int| 0 <= other < wide.len() implies (#[trigger] wide[other]).len()
        == wide[0].len() by {
        assert(grid[other].len() == grid[0].len());
    }
    assert(wide[0] =~= seed_row(width(wide), seed));
}

/// Writing one cell below the first row keeps the grid well formed.
pub proof fn lemma_cell_written(grid: Grid, row: int, column: int, state: bool)
    requires
        well_formed(grid),
        1 <= row < grid.len(),
        0 <= column < width(grid),
    ensures
        well_formed(grid.update(row, grid[row].update(column, state))),
{
    let written = grid.update(row, grid[row].update(column, state));
    let seed = choose|c: int|
        0 <= c < width(grid) && grid[0] == #[trigger] seed_row(width(grid), c);
    assert(written[0] == grid[0]);
    assert forall|other: int| 0 <= other < written.len() implies (#[trigger] written[other]).len()
        == written[0].len() by {
        assert(grid[other].len() == grid[0].len());
    }
    assert(written[0] == seed_row(width(written), seed));
}

/// A row that has been computed does not change when it is computed again.
pub proof fn lemma_with_row_idempotent(grid: Grid, rule: Seq<bool>, row: int)
    requires
        1 <= row,
    ensures
        with_row(with_row(grid, rule, row), rule, row) == with_row(grid, rule, row),
{
    if row < grid.len() {
        let computed = with_row(grid, rule, row);
        assert(computed[row - 1] == grid[row - 1]);
        assert forall|column: int| 0 <= column < grid[row].len() implies next_cell(
            computed,
            rule,
            row,
            column,
        ) == next_cell(grid, rule, row, column) by {
            assert(cell(computed, row - 1, column - 1) == cell(grid, row - 1, column - 1));
            assert(cell(computed, row - 1, column) == cell(grid, row - 1, column));
            assert(cell(computed, row - 1, column + 1) == cell(grid, row - 1, column + 1));
        }
        assert(next_row(computed, rule, row) =~= next_row(grid, rule, row));
        assert(with_row(computed, rule, row) =~= computed);
    }
}

/// Widening keeps the grid well formed and adds one column for each side
/// that is widened.
pub proof fn lemma_widened_well_formed(grid: Grid, left: bool, right: bool)
    requires
        well_formed(grid),
    ensures
        well_formed(widened(grid, left, right)),
        widened(grid, left, right).len() == grid.len(),
        width(widened(grid, left, right)) == width(grid) + weight(left) + weight(right),
{
    if left {
        lemma_widened_left_well_formed(grid);
        if right {
            lemma_widened_right_well_formed(widened_left(grid));
        }
    } else if right {
        lemma_widened_right_well_formed(grid);
    }
}

/// Whether row `row` needs no more room: it has been computed, and either it
/// is inactive at both edges or the grid is `max_width` wide or wider.
pub open spec fn settled(grid: Grid, rule: Seq<bool>, row: int, max_width: int) -> bool {
    &&& with_row(grid, rule, row) == grid
    &&& width(grid) >= max_width || !(left_edge(grid, row) || right_edge(grid, row))
}

/// Growing a row keeps the grid well formed and its rows as many, never
/// narrows it, and leaves the row settled.
pub proof fn lemma_grown(grid: Grid, rule: Seq<bool>, row: int, max_width: int)
    requires
        well_formed(grid),
        1 <= row < grid.len(),
    ensures
        well_formed(grown(grid, rule, row, max_width)),
        grown(grid, rule, row, max_width).len() == grid.len(),
        width(grown(grid, rule, row, max_width)) >= width(grid),
        width(grown(grid, rule, row, max_width)) <= width(grid) || width(
            grown(grid, rule, row, max_width),
        ) <= max_width + 1,
        settled(grown(grid, rule, row, max_width), rule, row, max_width),
    decreases max_width + 1 - width(grid),
{
    let computed = with_row(grid, rule, row);
    let left = left_edge(computed, row);
    let right = right_edge(computed, row);
    lemma_with_row_well_formed(grid, rule, row);
    lemma_with_row_idempotent(grid, rule, row);
    if width(grid) < max_width && (left || right) {
        lemma_widened_well_formed(computed, left, right);
        lemma_grown(widened(computed, left, right), rule, row, max_width);
    }
}

/// A settled row stays as it is: growing it again changes nothing, so the
/// grid gets no wider.
pub proof fn lemma_settled_is_fixed(grid: Grid, rule: Seq<bool>, row: int, max_width: int)
    requires
        settled(grid, rule, row, max_width),
    ensures
        grown(grid, rule, row, max_width) == grid,
{
}

/// Growing a row twice is the same as growing it once.
pub proof fn lemma_grown_idempotent(grid: Grid, rule: Seq<bool>, row: int, max_width: int)
    requires
        well_formed(grid),
        1 <= row < grid.len(),
    ensures
        grown(grown(grid, rule, row, max_width), rule, row, max_width) == grown(
            grid,
            rule,
            row,
            max_width,
        ),
{
    lemma_grown(grid, rule, row, max_width);
    lemma_settled_is_fixed(grown(grid, rule, row, max_width), rule, row, max_width);
}

/// Growing a row that has just been computed gives what growing it from the
/// start gives.
pub proof fn lemma_grown_of_computed(grid: Grid, rule: Seq<bool>, row: int, max_width: int)
    requires
        well_formed(grid),
        1 <= row < grid.len(),
    ensures
        grown(with_row(grid, rule, row), rule, row, max_width) == grown(
            grid,
            rule,
            row,
            max_width,
        ),
{
    lemma_with_row_idempotent(grid, rule, row);
    lemma_with_row_well_formed(grid, rule, row);
}

/// Growing the rows in turn keeps the grid well formed and its rows as many,
/// and never narrows it: the grid is at least as wide as it was at the start
/// and no wider than that, or than one column more than `max_width`.
pub proof fn lemma_evolved(grid: Grid, rule: Seq<bool>, max_width: int, last: nat)
    requires
        well_formed(grid),
        last < grid.len(),
    ensures
        well_formed(evolved(grid, rule, max_width, last)),
        evolved(grid, rule, max_width, last).len() == grid.len(),
        width(evolved(grid, rule, max_width, last)) >= width(grid),
        width(evolved(grid, rule, max_width, last)) <= width(grid) || width(
            evolved(grid, rule, max_width, last),
        ) <= max_width + 1,
    decreases last,
{
    if last > 0 {
        let earlier = evolved(grid, rule, max_width, (last - 1) as nat);
        lemma_evolved(grid, rule, max_width, (last - 1) as nat);
        lemma_grown(earlier, rule, last as int, max_width);
    }
}

/// The number of columns that growing the rows 1 to `last` in turn puts in
/// front of the grid.
pub open spec fn evolved_left(grid: Grid, rule: Seq<bool>, max_width: int, last: nat) -> nat
    decreases last,
{
    if last == 0 {
        0
    } else {
        evolved_left(grid, rule, max_width, (last - 1) as nat) + grown_left(
            evolved(grid, rule, max_width, (last - 1) as nat),
            rule,
            last as int,
            max_width,
        )
    }
}

/// The number of columns that growing the rows 1 to `last` in turn puts
/// behind the grid.
pub open spec fn evolved_right(grid: Grid, rule: Seq<bool>, max_width: int, last: nat) -> nat
    decreases last,
{
    if last == 0 {
        0
    } else {
        evolved_right(grid, rule, max_width, (last - 1) as nat) + grown_right(
            evolved(grid, rule, max_width, (last - 1) as nat),
            rule,
            last as int,
            max_width,
        )
    }
}

/// Padding a padded row is padding it once, by the sums.
pub proof fn lemma_padded_twice(
    row: Seq<bool>,
    left: nat,
    right: nat,
    more_left: nat,
    more_right: nat,
)
    ensures
        padded(padded(row, left, right), more_left, more_right) == padded(
            row,
            left + more_left,
            right + more_right,
        ),
{
    assert(padded(padded(row, left, right), more_left, more_right) =~= padded(
        row,
        left + more_left,
        right + more_right,
    ));
}

/// Growing a row does nothing to the other rows but put inactive cells at
/// their ends, as many in front and as many behind for every row.
pub proof fn lemma_grown_pads(grid: Grid, rule: Seq<bool>, row: int, max_width: int, other: int)
    requires
        well_formed(grid),
        1 <= row < grid.len(),
        0 <= other < grid.len(),
        other != row,
    ensures
        grown(grid, rule, row, max_width)[other] == padded(
            grid[other],
            grown_left(grid, rule, row, max_width),
            grown_right(grid, rule, row, max_width),
        ),
        width(grown(grid, rule, row, max_width)) == width(grid) + grown_left(
            grid,
            rule,
            row,
            max_width,
        ) + grown_right(grid, rule, row, max_width),
    decreases max_width + 1 - width(grid),
{
    let computed = with_row(grid, rule, row);
    let left = left_edge(computed, row);
    let right = right_edge(computed, row);
    lemma_with_row_well_formed(grid, rule, row);
    if width(grid) < max_width && (left || right) {
        let wide = widened(computed, left, right);
        lemma_widened_well_formed(computed, left, right);
        lemma_grown_pads(wide, rule, row, max_width, other);
        assert(wide[other] =~= padded(grid[other], weight(left) as nat, weight(right) as nat));
        lemma_padded_twice(
            grid[other],
            weight(left) as nat,
            weight(right) as nat,
            grown_left(wide, rule, row, max_width),
            grown_right(wide, rule, row, max_width),
        );
    } else {
        assert(computed[other] =~= padded(grid[other], 0, 0));
    }
}

/// A row that has been grown stays as it is while the later rows are grown,
/// but for the inactive cells that are put at its ends; so does the first
/// row, and so does a row whose turn has not come.
pub proof fn lemma_evolved_pads(
    grid: Grid,
    rule: Seq<bool>,
    max_width: int,
    earlier: nat,
    later: nat,
    row: int,
)
    requires
        well_formed(grid),
        earlier <= later < grid.len(),
        0 <= row <= earlier || later < row < grid.len(),
    ensures
        evolved_left(grid, rule, max_width, earlier) <= evolved_left(grid, rule, max_width, later),
        evolved_right(grid, rule, max_width, earlier) <= evolved_right(
            grid,
            rule,
            max_width,
            later,
        ),
        evolved(grid, rule, max_width, later)[row] == padded(
            evolved(grid, rule, max_width, earlier)[row],
            (evolved_left(grid, rule, max_width, later) - evolved_left(
                grid,
                rule,
                max_width,
                earlier,
            )) as nat,
            (evolved_right(grid, rule, max_width, later) - evolved_right(
                grid,
                rule,
                max_width,
                earlier,
            )) as nat,
        ),
    decreases later,
{
    if earlier < later {
        let before = evolved(grid, rule, max_width, (later - 1) as nat);
        lemma_evolved_pads(grid, rule, max_width, earlier, (later - 1) as nat, row);
        lemma_evolved(grid, rule, max_width, (later - 1) as nat);
        lemma_grown_pads(before, rule, later as int, max_width, row);
        lemma_padded_twice(
            evolved(grid, rule, max_width, earlier)[row],
            (evolved_left(grid, rule, max_width, (later - 1) as nat) - evolved_left(
                grid,
                rule,
                max_width,
                earlier,
            )) as nat,
            (evolved_right(grid, rule, max_width, (later - 1) as nat) - evolved_right(
                grid,
                rule,
                max_width,
                earlier,
            )) as nat,
            grown_left(before, rule, later as int, max_width),
            grown_right(before, rule, later as int, max_width),
        );
    } else {
        assert(evolved(grid, rule, max_width, later)[row] =~= padded(
            evolved(grid, rule, max_width, earlier)[row],
            0,
            0,
        ));
    }
}

/// The grid only ever gets wider: after more rows it is at least as wide as
/// after fewer.
pub proof fn lemma_evolved_widens(
    grid: Grid,
    rule: Seq<bool>,
    max_width: int,
    earlier: nat,
    later: nat,
)
    requires
        well_formed(grid),
        earlier <= later < grid.len(),
    ensures
        width(evolved(grid, rule, max_width, earlier)) <= width(
            evolved(grid, rule, max_width, later),
        ),
    decreases later,
{
    if earlier < later {
        let before = evolved(grid, rule, max_width, (later - 1) as nat);
        lemma_evolved_widens(grid, rule, max_width, earlier, (later - 1) as nat);
        lemma_evolved(grid, rule, max_width, (later - 1) as nat);
        lemma_grown(before, rule, later as int, max_width);
    }
}

} // verus!
