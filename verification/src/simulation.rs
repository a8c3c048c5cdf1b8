//! The simulation: a grid of cells that is filled generation by generation
//! and widened whenever a generation reaches one of its edges.

use crate::config::Config;
use crate::grid::{
    ancestors, blank_row, cell, evolved, grown, initial, left_edge, lemma_cell_written,
    lemma_grown, lemma_grown_of_computed, lemma_initial_well_formed,
    lemma_widened_left_well_formed, lemma_widened_right_well_formed, lemma_widened_well_formed,
    lemma_with_row_idempotent, lemma_with_row_well_formed, next_cell, next_row, right_edge,
    seed_row, well_formed, widened, widened_left, widened_right, width, with_row, Grid,
};
use crate::rule::{apply, binary_digits, rules_to_bools, Rule};
use vstd::prelude::*;

verus! {

/// Why a simulation could not be set up.
#[derive(Clone, Copy, Debug, PartialEq, Eq, Structural)]
pub enum DimensionError {
    /// A simulation needs at least one generation.
    NoGenerations,
    /// A generation needs at least one cell.
    NoColumns,
}

/// The number of columns that a simulation starts with.
pub const INITIAL_WIDTH: usize = 5;

/// The history of an automaton: one row of cells for each generation.
#[derive(Debug)]
pub struct Simulation {
    board: Vec<Vec<bool>>,
    generation: usize,
}

/// The grid that the rows of `board` stand for.
pub open spec fn board_view(board: Vec<Vec<bool>>) -> Grid {
    Seq::new(board@.len(), |row: int| board@[row]@)
}

impl View for Simulation {
    type V = Grid;

    closed spec fn view(&self) -> Grid {
        board_view(self.board)
    }
}

fn blank(width: usize) -> (row: Vec<bool>)
    ensures
        row@ == blank_row(width as nat),
{
    let mut row: Vec<bool> = Vec::new();
    while row.len() < width
        invariant
            row.len() <= width,
            forall|c: int| 0 <= c < row.len() ==> !row[c],
        decreases width - row.len(),
    {
        row.push(false);
    }
    assert(row@ =~= blank_row(width as nat));
    row
}

impl Simulation {
    /// What every simulation satisfies: its grid is rectangular, and its
    /// first row holds the seed and nothing else.
    pub open spec fn wf(&self) -> bool {
        well_formed(self@)
    }

    /// The number of generations counted so far.
    pub closed spec fn spec_generation(&self) -> usize {
        self.generation
    }

    /// Sets up `generations` rows of `width` inactive cells and activates the
    /// seed in the middle of the first row.
    pub fn new(generations: usize, width: usize) -> (result: Result<Simulation, DimensionError>)
        ensures
            result is Ok <==> generations >= 1 && width >= 1,
            result matches Ok(simulation) ==> simulation.wf() && simulation@ == initial(
                generations as nat,
                width as nat,
            ) && simulation.generation() == 0,
            generations == 0 ==> result == Err::<Simulation, _>(DimensionError::NoGenerations),
            generations >= 1 && width == 0 ==> result == Err::<Simulation, _>(
                DimensionError::NoColumns,
            ),
    {
        if generations == 0 {
            return Err(DimensionError::NoGenerations);
        }
        if width == 0 {
            return Err(DimensionError::NoColumns);
        }
        let mut board: Vec<Vec<bool>> = Vec::new();
        while board.len() < generations
            invariant
                board.len() <= generations,
                forall|row: int|
                    0 <= row < board.len() ==> (#[trigger] board[row])@ == blank_row(width as nat),
            decreases generations - board.len(),
        {
            board.push(blank(width));
        }
        let middle = (width - 1) / 2;
        board[0][middle] = true;
        proof {
            assert(board[0]@ =~= seed_row(width as nat, middle as int));
            assert(board_view(board) =~= initial(generations as nat, width as nat));
            lemma_initial_well_formed(generations as nat, width as nat);
        }
        Ok(Simulation { board, generation: 0 })
    }

    /// Runs the automaton that `config` describes from the seed to its last
    /// generation: the grid starts `INITIAL_WIDTH` columns wide and grows up
    /// to the width that `config` allows.
    pub fn from_config(config: &Config) -> (result: Result<Simulation, DimensionError>)
        ensures
            result is Ok <==> config.generations >= 1,
            result matches Ok(simulation) ==> simulation.wf() && simulation@ == evolved(
                initial(config.generations as nat, INITIAL_WIDTH as nat),
                binary_digits(config.rule as int),
                config.max_computing_length as int,
                (config.generations - 1) as nat,
            ) && simulation.generation() == config.generations - 1,
            config.generations == 0 ==> result == Err::<Simulation, _>(
                DimensionError::NoGenerations,
            ),
    {
        let mut simulation = Simulation::new(config.generations, INITIAL_WIDTH)?;
        let rule = rules_to_bools(config.rule);
        simulation.create(&rule, config.max_computing_length);
        Ok(simulation)
    }

    /// The number of rows.
    pub fn rows(&self) -> (rows: usize)
        ensures
            rows == self@.len(),
    {
        self.board.len()
    }

    /// The number of columns.
    pub fn width(&self) -> (columns: usize)
        requires
            self.wf(),
        ensures
            columns == width(self@),
            columns >= 1,
    {
        self.board[0].len()
    }

    /// The rows of the grid, for reading.
    pub fn board(&self) -> (board: &Vec<Vec<bool>>)
        ensures
            board_view(*board) == self@,
    {
        &self.board
    }

    /// The number of generations counted so far.
    #[verifier::when_used_as_spec(spec_generation)]
    pub fn generation(&self) -> (generation: usize)
        ensures
            generation == self.generation(),
    {
        self.generation
    }

    /// The state of the cell at row `r` and column `c`; a cell outside the
    /// grid is inactive.
    pub fn get(&self, r: usize, c: usize) -> (state: &bool)
        ensures
            *state == cell(self@, r as int, c as int),
    {
        if r < self.board.len() {
            let row = &self.board[r];
            if c < row.len() {
                &row[c]
            } else {
                &false
            }
        } else {
            &false
        }
    }

    /// The three ancestors of the cell at row `r` and column `c`: the cells
    /// of the row above to its left, straight above it and to its right. The
    /// leftmost column has no left ancestor, and the first row has none at
    /// all.
    pub fn get_block(&self, r: usize, c: usize) -> (block: (&bool, &bool, &bool))
        ensures
            (*block.0, *block.1, *block.2) == ancestors(self@, r as int, c as int),
    {
        if r == 0 {
            (&false, &false, &false)
        } else {
            let right = if c < usize::MAX {
                self.get(r - 1, c + 1)
            } else {
                proof {
                    if r - 1 < self.board.len() {
                        assert(self@[r - 1].len() == self.board[r - 1].len());
                    }
                }
                &false
            };
            if c == 0 {
                (&false, self.get(r - 1, c), right)
            } else {
                (self.get(r - 1, c - 1), self.get(r - 1, c), right)
            }
        }
    }

    /// Computes the cell at row `r` and column `c` from its ancestors.
    pub fn process_block(&mut self, r: usize, c: usize, rule: &Rule)
        requires
            old(self).wf(),
            1 <= r < old(self)@.len(),
            c < width(old(self)@),
        ensures
            final(self).wf(),
            final(self)@ == old(self)@.update(
                r as int,
                old(self)@[r as int].update(
                    c as int,
                    next_cell(old(self)@, rule@, r as int, c as int),
                ),
            ),
            final(self)@.len() == old(self)@.len(),
            width(final(self)@) == width(old(self)@),
            final(self).generation() == old(self).generation(),
    {
        let next = {
            let (left, center, right) = self.get_block(r, c);
            apply(rule, *left, *center, *right)
        };
        let ghost before = self@;
        assert(before[r as int].len() == before[0].len());
        self.board[r][c] = next;
        proof {
            assert(self@ =~= before.update(r as int, before[r as int].update(c as int, next)));
            lemma_cell_written(before, r as int, c as int, next);
        }
    }

    /// Computes every cell of row `r`, from left to right.
    pub fn update_row(&mut self, r: usize, rule: &Rule)
        requires
            old(self).wf(),
            1 <= r < old(self)@.len(),
        ensures
            final(self).wf(),
            final(self)@ == with_row(old(self)@, rule@, r as int),
            final(self)@.len() == old(self)@.len(),
            width(final(self)@) == width(old(self)@),
            final(self).generation() == old(self).generation(),
    {
        let ghost before = self@;
        let columns = self.width();
        assert(before[r as int].len() == before[0].len());
        let mut c: usize = 0;
        while c < columns
            invariant
                self.wf(),
                c <= columns,
                columns == width(before),
                1 <= r < before.len(),
                self@.len() == before.len(),
                self.generation() == old(self).generation(),
                forall|other: int|
                    0 <= other < before.len() && other != r ==> self@[other] == before[other],
                self@[r as int].len() == columns,
                forall|k: int|
                    0 <= k < c ==> self@[r as int][k] == next_cell(before, rule@, r as int, k),
            decreases columns - c,
        {
            proof {
                assert(self@[r - 1] == before[r - 1]);
                assert(self@[0] == before[0]);
            }
            self.process_block(r, c, rule);
            c += 1;
        }
        proof {
            assert(self@[r as int] =~= next_row(before, rule@, r as int));
            assert(self@ =~= with_row(before, rule@, r as int));
        }
    }

    /// Puts an inactive column in front of the grid. Every cell moves one
    /// column to the right.
    pub fn expand_left(&mut self)
        requires
            old(self).wf(),
        ensures
            final(self).wf(),
            final(self)@ == widened_left(old(self)@),
            final(self)@.len() == old(self)@.len(),
            width(final(self)@) == width(old(self)@) + 1,
            final(self).generation() == old(self).generation(),
    {
        let ghost before = self@;
        let mut row: usize = 0;
        while row < self.board.len()
            invariant
                row <= self.board.len(),
                self.board.len() == before.len(),
                self.generation == old(self).generation,
                forall|r: int|
                    0 <= r < row ==> (#[trigger] self.board[r])@ == seq![false] + before[r],
                forall|r: int|
                    row <= r < self.board.len() ==> (#[trigger] self.board[r])@ == before[r],
            decreases self.board.len() - row,
        {
            self.board[row].insert(0, false);
            row += 1;
        }
        proof {
            assert(self@ =~= widened_left(before));
            lemma_widened_left_well_formed(before);
        }
    }

    /// Puts an inactive column behind the grid. No cell moves.
    pub fn expand_right(&mut self)
        requires
            old(self).wf(),
        ensures
            final(self).wf(),
            final(self)@ == widened_right(old(self)@),
            final(self)@.len() == old(self)@.len(),
            width(final(self)@) == width(old(self)@) + 1,
            final(self).generation() == old(self).generation(),
    {
        let ghost before = self@;
        let mut row: usize = 0;
        while row < self.board.len()
            invariant
                row <= self.board.len(),
                self.board.len() == before.len(),
                self.generation == old(self).generation,
                forall|r: int|
                    0 <= r < row ==> (#[trigger] self.board[r])@ == before[r].push(false),
                forall|r: int|
                    row <= r < self.board.len() ==> (#[trigger] self.board[r])@ == before[r],
            decreases self.board.len() - row,
        {
            self.board[row].push(false);
            row += 1;
        }
        proof {
            assert(self@ =~= widened_right(before));
            lemma_widened_right_well_formed(before);
        }
    }

    /// Computes row `r` and widens the grid until the row touches neither
    /// edge, or the grid is `max_width` wide or wider.
    ///
    /// While the grid is narrower than `max_width` and the row is active at
    /// an edge, a column is added on that side (on both sides, if both edges
    /// are active) and the row is computed again: a column added on the left
    /// moves the ancestors of every cell.
    pub fn grow_and_recompute(&mut self, r: usize, rule: &Rule, max_width: usize)
        requires
            old(self).wf(),
            1 <= r < old(self)@.len(),
        ensures
            final(self).wf(),
            final(self)@ == grown(old(self)@, rule@, r as int, max_width as int),
            final(self)@.len() == old(self)@.len(),
            width(final(self)@) >= width(old(self)@),
            final(self).generation() == old(self).generation(),
    {
        let ghost before = self@;
        let ghost goal = grown(before, rule@, r as int, max_width as int);
        self.update_row(r, rule);
        proof {
            lemma_grown(before, rule@, r as int, max_width as int);
            lemma_with_row_well_formed(before, rule@, r as int);
            lemma_with_row_idempotent(before, rule@, r as int);
            lemma_grown_of_computed(before, rule@, r as int, max_width as int);
        }
        while self.width() < max_width
            invariant
                self.wf(),
                1 <= r < self@.len(),
                self.generation() == old(self).generation(),
                with_row(self@, rule@, r as int) == self@,
                grown(self@, rule@, r as int, max_width as int) == goal,
            ensures
                self.wf(),
                self.generation() == old(self).generation(),
                self@ == goal,
            decreases max_width + 1 - width(self@),
        {
            let ghost current = self@;
            let mut far_left = false;
            let mut far_right = false;
            assert(current[r as int].len() == current[0].len());
            if self.board[r][0] {
                self.expand_left();
                far_left = true;
            }
            proof {
                lemma_widened_well_formed(current, far_left, false);
                assert(self@[r as int].len() == self@[0].len());
            }
            if self.board[r][self.board[0].len() - 1] {
                self.expand_right();
                far_right = true;
            }
            proof {
                assert(far_left == left_edge(current, r as int));
                assert(far_right == right_edge(current, r as int));
                assert(self@ == widened(current, far_left, far_right));
                lemma_widened_well_formed(current, far_left, far_right);
            }
            if far_left || far_right {
                let ghost wide = self@;
                self.update_row(r, rule);
                proof {
                    lemma_with_row_well_formed(wide, rule@, r as int);
                    lemma_with_row_idempotent(wide, rule@, r as int);
                    lemma_grown_of_computed(wide, rule@, r as int, max_width as int);
                }
            } else {
                break ;
            }
        }
    }

    /// Computes every row after the first, in order, growing the grid as each
    /// row asks for it, and counts one generation for each row.
    pub fn create(&mut self, rule: &Rule, max_width: usize)
        requires
            old(self).wf(),
            old(self).generation() + old(self)@.len() - 1 <= usize::MAX,
        ensures
            final(self).wf(),
            final(self)@ == evolved(
                old(self)@,
                rule@,
                max_width as int,
                (old(self)@.len() - 1) as nat,
            ),
            final(self)@.len() == old(self)@.len(),
            width(final(self)@) >= width(old(self)@),
            final(self).generation() == old(self).generation() + old(self)@.len() - 1,
    {
        let ghost before = self@;
        let rows = self.board.len();
        let mut r: usize = 1;
        while r < rows
            invariant
                self.wf(),
                1 <= r <= rows,
                rows == before.len(),
                self@.len() == rows,
                self@ == evolved(before, rule@, max_width as int, (r - 1) as nat),
                width(self@) >= width(before),
                self.generation() == old(self).generation() + r - 1,
                old(self).generation() + rows - 1 <= usize::MAX,
            decreases rows - r,
        {
            proof {
                lemma_grown(self@, rule@, r as int, max_width as int);
            }
            self.grow_and_recompute(r, rule, max_width);
            self.generation += 1;
            r += 1;
        }
    }
}

} // verus!
