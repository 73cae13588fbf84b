//! A play session: a mutable working grid paired with its immutable solution
//! grid, driven by toggle and reset operations.
use crate::cell::CellState;
use crate::grid::Grid;
use crate::grid::GridComponent;
use vstd::prelude::*;

verus! {

/// The overall game state the presentation layer tracks.
#[derive(Copy, Clone, PartialEq, Eq, Structural, Debug)]
pub enum GameState {
    Playing,
    Won,
    Menu,
}

/// A request to move the game to a new state.
#[derive(Copy, Clone, PartialEq, Eq, Structural, Debug)]
pub struct ChangeGameState(pub GameState);

/// Apply a state-change request.
pub fn update_game_state(game_state: &mut GameState, change: ChangeGameState)
    ensures
        *final(game_state) == change.0,
{
    *game_state = change.0;
}

/// What one toggle call did: nothing (a clue cell), a cell change that did
/// not win, or a cell change that completed the solution.
#[derive(Copy, Clone, PartialEq, Eq, Structural, Debug)]
pub enum ToggleOutcome {
    NoChange,
    StateUnchanged,
    Won,
}

/// The cell `reset` leaves behind: clue cells stay, all others become
/// `Blank`.
pub open spec fn spec_reset_cell(c: CellState) -> CellState {
    if c is Value {
        c
    } else {
        CellState::Blank
    }
}

/// The grid `reset` leaves behind.
pub open spec fn reset_grid(g: Seq<Seq<CellState>>) -> Seq<Seq<CellState>> {
    Seq::new(g.len(), |r: int| Seq::new(g[r].len(), |c: int| spec_reset_cell(g[r][c])))
}

/// Law: reset is idempotent, and it never alters a clue cell.
pub proof fn lemma_reset_idempotent(g: Seq<Seq<CellState>>)
    ensures
        reset_grid(reset_grid(g)) == reset_grid(g),
        forall|r: int, c: int|
            0 <= r < g.len() && 0 <= c < g[r].len() && (#[trigger] g[r][c]) is Value
                ==> reset_grid(g)[r][c] == g[r][c],
{
    assert(reset_grid(reset_grid(g)) =~~= reset_grid(g));
}

/// A session over one puzzle: the player-mutated working grid and the fixed
/// solution grid it is checked against.
pub struct Puzzle {
    pub game_grid: Grid,
    pub solution_grid: Grid,
}

impl Puzzle {
    /// A valid session: both grids well formed and of equal size.
    pub open spec fn wf(self) -> bool {
        &&& self.game_grid.wf()
        &&& self.solution_grid.wf()
        &&& self.game_grid.grid_size == self.solution_grid.grid_size
    }

    /// Pair a working grid with its solution; `None` exactly on a size
    /// mismatch, which is fatal at load time.
    pub fn new(game_grid: Grid, solution_grid: Grid) -> (r: Option<Puzzle>)
        requires
            game_grid.wf(),
            solution_grid.wf(),
        ensures
            r is Some <==> game_grid.grid_size == solution_grid.grid_size,
            r matches Some(p) ==> ({
                &&& p.wf()
                &&& p.game_grid == game_grid
                &&& p.solution_grid == solution_grid
            }),
    {
        if game_grid.grid_size.rows == solution_grid.grid_size.rows && game_grid.grid_size.cols
            == solution_grid.grid_size.cols {
            Some(Puzzle { game_grid, solution_grid })
        } else {
            None
        }
    }

    /// Toggle the cell at (row, col) of the working grid: a no-op on a clue
    /// cell, else the cell advances one step along the toggle cycle and the
    /// grid is re-checked against the solution.
    pub fn toggle(&mut self, row: usize, col: usize) -> (r: ToggleOutcome)
        requires
            old(self).wf(),
            row < old(self).game_grid.grid_size.rows,
            col < old(self).game_grid.grid_size.cols,
        ensures
            final(self).wf(),
            final(self).solution_grid == old(self).solution_grid,
            final(self).game_grid.grid_size == old(self).game_grid.grid_size,
            ({
                let before = old(self).game_grid@[row as int][col as int];
                if before is Value {
                    &&& final(self).game_grid@ == old(self).game_grid@
                    &&& r == ToggleOutcome::NoChange
                } else {
                    &&& final(self).game_grid@ == old(self).game_grid@.update(
                        row as int,
                        old(self).game_grid@[row as int].update(col as int, before.spec_next()),
                    )
                    &&& r == (if final(self).game_grid.spec_check(final(self).solution_grid) {
                        ToggleOutcome::Won
                    } else {
                        ToggleOutcome::StateUnchanged
                    })
                }
            }),
    {
        let cell = self.game_grid.get(row, col);
        if let CellState::Value(_) = cell {
            return ToggleOutcome::NoChange;
        }
        let next_state = cell.next();
        let location = GridComponent::new(row, col);
        self.game_grid.set(&location, next_state);
        if self.game_grid.check(&self.solution_grid) {
            ToggleOutcome::Won
        } else {
            ToggleOutcome::StateUnchanged
        }
    }

    /// Restore the working grid to its initial state: every togglable cell
    /// becomes `Blank`, clue cells stay untouched.
    pub fn reset(&mut self)
        requires
            old(self).wf(),
        ensures
            final(self).wf(),
            final(self).solution_grid == old(self).solution_grid,
            final(self).game_grid.grid_size == old(self).game_grid.grid_size,
            final(self).game_grid@ == reset_grid(old(self).game_grid@),
    {
        let rows = self.game_grid.grid_size.rows;
        let cols = self.game_grid.grid_size.cols;
        for i in 0..rows
            invariant
                self.game_grid.wf(),
                self.solution_grid == old(self).solution_grid,
                self.game_grid.grid_size == old(self).game_grid.grid_size,
                forall|r: int, c: int|
                    0 <= r < i && 0 <= c < cols ==> (#[trigger] self.game_grid@[r][c])
                        == spec_reset_cell(old(self).game_grid@[r][c]),
                forall|r: int, c: int|
                    i <= r < rows && 0 <= c < cols ==> (#[trigger] self.game_grid@[r][c]) == old(
                        self,
                    ).game_grid@[r][c],
        {
            for j in 0..cols
                invariant
                    self.game_grid.wf(),
                    self.solution_grid == old(self).solution_grid,
                    self.game_grid.grid_size == old(self).game_grid.grid_size,
                    forall|r: int, c: int|
                        0 <= r < i && 0 <= c < cols ==> (#[trigger] self.game_grid@[r][c])
                            == spec_reset_cell(old(self).game_grid@[r][c]),
                    forall|c: int|
                        0 <= c < j ==> (#[trigger] self.game_grid@[i as int][c])
                            == spec_reset_cell(old(self).game_grid@[i as int][c]),
                    forall|c: int|
                        j <= c < cols ==> (#[trigger] self.game_grid@[i as int][c]) == old(
                            self,
                        ).game_grid@[i as int][c],
                    forall|r: int, c: int|
                        i < r < rows && 0 <= c < cols ==> (#[trigger] self.game_grid@[r][c])
                            == old(self).game_grid@[r][c],
            {
                let tile = self.game_grid.get(i, j);
                let replacement = match tile {
                    CellState::Value(v) => CellState::Value(v),
                    _ => CellState::Blank,
                };
                let location = GridComponent::new(i, j);
                self.game_grid.set(&location, replacement);
            }
        }
        proof {
            assert(self.game_grid@ =~~= reset_grid(old(self).game_grid@));
        }
    }

    /// Whether the working grid currently matches the solution's land/water
    /// partition.
    pub fn is_won(&self) -> (r: bool)
        requires
            self.wf(),
        ensures
            r == self.game_grid.spec_check(self.solution_grid),
    {
        self.game_grid.check(&self.solution_grid)
    }
}

} // verus!
