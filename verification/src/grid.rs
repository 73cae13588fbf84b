//! The puzzle grid: a rectangular container of cell states with parsing
//! constructors, clamped access, and the land/water win check.
use crate::cell::CellState;
use crate::parse::is_digit;
use crate::parse::digit_val;
use crate::parse::is_number;
use crate::parse::num_val;
use crate::parse::parse_clue_num;
use crate::parse::parse_number;
use crate::parse::spec_lines;
use crate::parse::split_lines;
use crate::parse::split_on;
use crate::parse::split_vec;
use crate::parse::str_to_chars;
use crate::parse::views_of;
use vstd::prelude::*;

verus! {

/// The dimensions of a grid.
#[derive(Copy, Clone, PartialEq, Eq, Structural, Debug)]
pub struct GridSize {
    pub rows: usize,
    pub cols: usize,
}

/// A zero-based (row, col) position on a grid.
#[derive(Copy, Clone, PartialEq, Eq, Structural, Debug)]
pub struct GridComponent {
    pub row: usize,
    pub col: usize,
}

impl GridComponent {
    /// A position at the given row and column.
    pub fn new(row: usize, col: usize) -> (r: GridComponent)
        ensures
            r.row == row,
            r.col == col,
    {
        GridComponent { row, col }
    }

    /// A position with the same value for row and column.
    pub fn splat(val: usize) -> (r: GridComponent)
        ensures
            r.row == val,
            r.col == val,
    {
        GridComponent { row: val, col: val }
    }

    /// Clamp this position into the bounds of a grid of the given size.
    pub fn clamp(&self, grid_size: &GridSize) -> (r: GridComponent)
        requires
            grid_size.rows > 0,
            grid_size.cols > 0,
        ensures
            r.row == (if self.row < grid_size.rows {
                self.row as int
            } else {
                grid_size.rows - 1
            }),
            r.col == (if self.col < grid_size.cols {
                self.col as int
            } else {
                grid_size.cols - 1
            }),
    {
        GridComponent {
            row: if self.row < grid_size.rows {
                self.row
            } else {
                grid_size.rows - 1
            },
            col: if self.col < grid_size.cols {
                self.col
            } else {
                grid_size.cols - 1
            },
        }
    }
}

/// A rectangular grid of cell states, addressed by zero-based (row, col).
pub struct Grid {
    pub grid_size: GridSize,
    pub cells: Vec<Vec<CellState>>,
}

impl View for Grid {
    type V = Seq<Seq<CellState>>;

    /// A grid is modelled as the sequence of its rows.
    closed spec fn view(&self) -> Seq<Seq<CellState>> {
        views_of(self.cells@)
    }
}

impl Grid {
    /// Well-formedness: exactly `rows` rows of exactly `cols` cells each.
    pub open spec fn wf(self) -> bool {
        &&& self@.len() == self.grid_size.rows
        &&& forall|i: int| 0 <= i < self@.len() ==> (#[trigger] self@[i]).len() == self.grid_size.cols
    }

    /// The cell at (row, col), with out-of-range coordinates clamped into
    /// `[0, rows-1] x [0, cols-1]`.
    pub open spec fn spec_get(self, row: int, col: int) -> CellState {
        let r = if row < 0 {
            0
        } else if row >= self.grid_size.rows {
            self.grid_size.rows - 1
        } else {
            row
        };
        let c = if col < 0 {
            0
        } else if col >= self.grid_size.cols {
            self.grid_size.cols - 1
        } else {
            col
        };
        self@[r][c]
    }

    /// Read the cell at (row, col); out-of-range coordinates are clamped to
    /// the nearest edge rather than failing.
    pub fn get(&self, row: usize, col: usize) -> (r: CellState)
        requires
            self.wf(),
            self.grid_size.rows > 0,
            self.grid_size.cols > 0,
        ensures
            r == self.spec_get(row as int, col as int),
    {
        let r = if row < self.grid_size.rows {
            row
        } else {
            self.grid_size.rows - 1
        };
        let c = if col < self.grid_size.cols {
            col
        } else {
            self.grid_size.cols - 1
        };
        self.cells[r][c]
    }

    /// Overwrite the cell at `location` unconditionally; the caller is
    /// responsible for only writing to togglable cells.
    pub fn set(&mut self, location: &GridComponent, value: CellState)
        requires
            old(self).wf(),
            location.row < old(self).grid_size.rows,
            location.col < old(self).grid_size.cols,
        ensures
            final(self).wf(),
            final(self).grid_size == old(self).grid_size,
            final(self)@ == old(self)@.update(
                location.row as int,
                old(self)@[location.row as int].update(location.col as int, value),
            ),
    {
        set_cell(&mut self.cells, location.row, location.col, value);
    }

    /// The win predicate over grid values: the sizes agree and every cell
    /// pair agrees on land versus water.
    pub open spec fn spec_check(self, solution: Grid) -> bool {
        &&& self.grid_size == solution.grid_size
        &&& forall|r: int, c: int|
            0 <= r < self.grid_size.rows && 0 <= c < self.grid_size.cols ==> (
            #[trigger] self@[r][c]).spec_is_same(solution@[r][c])
    }

    /// Compare this grid against a solution: `false` on any size mismatch,
    /// else `true` exactly when every cell matches up to the land/water
    /// partition.
    pub fn check(&self, solution: &Grid) -> (r: bool)
        requires
            self.wf(),
            solution.wf(),
        ensures
            r == self.spec_check(*solution),
    {
        if self.grid_size.rows != solution.grid_size.rows || self.grid_size.cols
            != solution.grid_size.cols {
            return false;
        }
        let rows = self.grid_size.rows;
        let cols = self.grid_size.cols;
        for row in 0..rows
            invariant
                forall|r: int, c: int|
                    0 <= r < row && 0 <= c < cols ==> (#[trigger] self@[r][c]).spec_is_same(
                        solution@[r][c],
                    ),
        {
            for col in 0..cols
                invariant
                    forall|r: int, c: int|
                        0 <= r < row && 0 <= c < cols ==> (#[trigger] self@[r][c]).spec_is_same(
                            solution@[r][c],
                        ),
                    forall|c: int|
                        0 <= c < col ==> (#[trigger] self@[row as int][c]).spec_is_same(
                            solution@[row as int][c],
                        ),
            {
                if !self.get(row, col).is_same(solution.get(row, col)) {
                    return false;
                }
            }
        }
        true
    }
}

/// A well-formed dimension line: at least two comma-separated parts, the
/// first two being digit strings (cols, then rows) whose values fit in
/// `usize`. Further parts are ignored.
pub open spec fn dim_line_ok(l: Seq<char>) -> bool {
    let ps = split_on(l, ',');
    &&& ps.len() >= 2
    &&& is_number(ps[0]) && num_val(ps[0]) <= usize::MAX
    &&& is_number(ps[1]) && num_val(ps[1]) <= usize::MAX
}

/// The column count declared by a dimension line.
pub open spec fn dim_cols(l: Seq<char>) -> nat {
    num_val(split_on(l, ',')[0])
}

/// The row count declared by a dimension line.
pub open spec fn dim_rows(l: Seq<char>) -> nat {
    num_val(split_on(l, ',')[1])
}

/// A well-formed clue line for a rows x cols grid: at least three
/// comma-separated digit strings `size,row,col`, each fitting the clue value
/// type, with the 1-based coordinates inside the grid. Further parts are
/// ignored.
pub open spec fn clue_line_ok(l: Seq<char>, rows: nat, cols: nat) -> bool {
    let ps = split_on(l, ',');
    &&& ps.len() >= 3
    &&& is_number(ps[0]) && num_val(ps[0]) <= 127
    &&& is_number(ps[1]) && num_val(ps[1]) <= 127 && 1 <= num_val(ps[1]) <= rows
    &&& is_number(ps[2]) && num_val(ps[2]) <= 127 && 1 <= num_val(ps[2]) <= cols
}

/// A well-formed puzzle description: a header line, a dimension line, two
/// skipped lines, then zero or more clue lines.
pub open spec fn puzzle_ok(s: Seq<char>) -> bool {
    let ls = spec_lines(s);
    &&& ls.len() >= 2
    &&& dim_line_ok(ls[1])
    &&& forall|i: int|
        4 <= i < ls.len() ==> clue_line_ok(#[trigger] ls[i], dim_rows(ls[1]), dim_cols(ls[1]))
}

/// The row count a puzzle description declares.
pub open spec fn puzzle_rows(s: Seq<char>) -> nat {
    dim_rows(spec_lines(s)[1])
}

/// The column count a puzzle description declares.
pub open spec fn puzzle_cols(s: Seq<char>) -> nat {
    dim_cols(spec_lines(s)[1])
}

/// A rows x cols grid of `Blank` cells.
pub open spec fn blank_grid(rows: nat, cols: nat) -> Seq<Seq<CellState>> {
    Seq::new(rows, |i: int| Seq::new(cols, |j: int| CellState::Blank))
}

/// Place the clue a clue line describes: `Value(size)` at the 0-based cell
/// its 1-based coordinates name.
pub open spec fn place_clue(g: Seq<Seq<CellState>>, l: Seq<char>) -> Seq<Seq<CellState>> {
    let ps = split_on(l, ',');
    let size = num_val(ps[0]);
    let r = num_val(ps[1]) - 1;
    let c = num_val(ps[2]) - 1;
    g.update(r, g[r].update(c, CellState::Value(size as i8)))
}

/// Place every clue of `ls` in order; a later clue overwrites an earlier one
/// on the same cell.
pub open spec fn place_clues(g: Seq<Seq<CellState>>, ls: Seq<Seq<char>>) -> Seq<Seq<CellState>>
    decreases ls.len(),
{
    if ls.len() == 0 {
        g
    } else {
        place_clue(place_clues(g, ls.drop_last()), ls.last())
    }
}

/// The clue lines of a puzzle description: everything after the header, the
/// dimension line and the two skipped lines.
pub open spec fn clue_lines(s: Seq<char>) -> Seq<Seq<char>> {
    taken_clues(spec_lines(s), spec_lines(s).len() as int)
}

/// The clue lines among the first `i` lines.
pub open spec fn taken_clues(ls: Seq<Seq<char>>, i: int) -> Seq<Seq<char>> {
    if 4 <= i <= ls.len() {
        ls.subrange(4, i)
    } else {
        Seq::<Seq<char>>::empty()
    }
}

/// The grid a well-formed puzzle description denotes: all `Blank` except the
/// clue cells.
pub open spec fn puzzle_grid(s: Seq<char>) -> Seq<Seq<CellState>> {
    place_clues(blank_grid(puzzle_rows(s), puzzle_cols(s)), clue_lines(s))
}

/// Build a rows x cols grid of `Blank` cells.
fn blank_cells(rows: usize, cols: usize) -> (g: Vec<Vec<CellState>>)
    ensures
        views_of(g@) == blank_grid(rows as nat, cols as nat),
{
    let mut g: Vec<Vec<CellState>> = Vec::new();
    for i in 0..rows
        invariant
            g@.len() == i,
            forall|r: int| 0 <= r < i ==> (#[trigger] g@[r])@.len() == cols,
            forall|r: int, c: int|
                0 <= r < i && 0 <= c < cols ==> (#[trigger] g@[r]@[c]) == CellState::Blank,
    {
        let mut row: Vec<CellState> = Vec::new();
        for j in 0..cols
            invariant
                row@.len() == j,
                forall|k: int| 0 <= k < j ==> (#[trigger] row@[k]) == CellState::Blank,
        {
            row.push(CellState::Blank);
        }
        g.push(row);
    }
    proof {
        assert(views_of(g@) =~~= blank_grid(rows as nat, cols as nat));
    }
    g
}

impl Grid {
    /// Parse a puzzle description: a header line, a `cols,rows` dimension
    /// line, two skipped lines, then one `size,row,col` clue per line with
    /// 1-based coordinates. `None` exactly when the text is malformed, a
    /// numeric token does not parse, or a clue falls outside the declared
    /// dimensions.
    pub fn from_puzzle_string(text: String) -> (r: Option<Grid>)
        ensures
            r is Some <==> puzzle_ok(text@),
            r matches Some(g) ==> ({
                &&& g.wf()
                &&& g.grid_size.rows == puzzle_rows(text@)
                &&& g.grid_size.cols == puzzle_cols(text@)
                &&& g@ == puzzle_grid(text@)
            }),
    {
        let chars = str_to_chars(text.as_str());
        let lines = split_lines(&chars);
        let ghost ls = spec_lines(text@);
        if lines.len() < 2 {
            return None;
        }
        let dparts = split_vec(&lines[1], ',');
        proof {
            assert(views_of(lines@)[1] == ls[1]);
            assert(views_of(dparts@) == split_on(ls[1], ','));
        }
        if dparts.len() < 2 {
            return None;
        }
        proof {
            assert(views_of(dparts@)[0] == dparts@[0]@);
            assert(views_of(dparts@)[1] == dparts@[1]@);
        }
        let cols = match parse_number(&dparts[0]) {
            Some(n) => n,
            None => {
                return None;
            },
        };
        let rows = match parse_number(&dparts[1]) {
            Some(n) => n,
            None => {
                return None;
            },
        };
        proof {
            assert(dim_line_ok(ls[1]));
            assert(rows as nat == puzzle_rows(text@));
            assert(cols as nat == puzzle_cols(text@));
        }
        let mut cells = blank_cells(rows, cols);
        proof {
            assert(cells@.len() == views_of(cells@).len());
            assert forall|r: int| 0 <= r < rows implies (#[trigger] cells@[r])@.len()
                == cols by {
                assert(views_of(cells@)[r] == cells@[r]@);
                assert(blank_grid(rows as nat, cols as nat)[r].len() == cols);
            }
        }
        let nlines = lines.len();
        let start = if nlines < 4 {
            nlines
        } else {
            4
        };
        for i in start..nlines
            invariant
                cells@.len() == rows,
                forall|r: int| 0 <= r < rows ==> (#[trigger] cells@[r])@.len() == cols,
                forall|k: int|
                    4 <= k < i ==> clue_line_ok(#[trigger] ls[k], rows as nat, cols as nat),
                views_of(cells@) == place_clues(
                    blank_grid(rows as nat, cols as nat),
                    taken_clues(ls, i as int),
                ),
        {
            let cparts = split_vec(&lines[i], ',');
            proof {
                assert(views_of(lines@)[i as int] == ls[i as int]);
                assert(views_of(cparts@) == split_on(ls[i as int], ','));
            }
            if cparts.len() < 3 {
                return None;
            }
            proof {
                assert(views_of(cparts@)[0] == cparts@[0]@);
                assert(views_of(cparts@)[1] == cparts@[1]@);
                assert(views_of(cparts@)[2] == cparts@[2]@);
            }
            let size = match parse_clue_num(&cparts[0]) {
                Some(n) => n,
                None => {
                    return None;
                },
            };
            let row1 = match parse_clue_num(&cparts[1]) {
                Some(n) => n,
                None => {
                    return None;
                },
            };
            let col1 = match parse_clue_num(&cparts[2]) {
                Some(n) => n,
                None => {
                    return None;
                },
            };
            if row1 < 1 || row1 as usize > rows {
                proof {
                    assert(!(1 <= num_val(views_of(cparts@)[1]) <= rows as nat));
                    assert(!clue_line_ok(ls[i as int], rows as nat, cols as nat));
                    assert(!puzzle_ok(text@));
                }
                return None;
            }
            if col1 < 1 || col1 as usize > cols {
                proof {
                    assert(!(1 <= num_val(views_of(cparts@)[2]) <= cols as nat));
                    assert(!clue_line_ok(ls[i as int], rows as nat, cols as nat));
                    assert(!puzzle_ok(text@));
                }
                return None;
            }
            let ri = (row1 - 1) as usize;
            let ci = (col1 - 1) as usize;
            proof {
                assert(clue_line_ok(ls[i as int], rows as nat, cols as nat));
            }
            let ghost prev = cells@;
            set_cell(&mut cells, ri, ci, CellState::Value(size));
            proof {
                assert forall|r: int| 0 <= r < rows implies (#[trigger] cells@[r])@.len()
                    == cols by {
                    assert(views_of(cells@)[r] == cells@[r]@);
                    assert(views_of(prev)[r] == prev[r]@);
                }
                assert(taken_clues(ls, i + 1).drop_last() =~= taken_clues(ls, i as int));
                assert(taken_clues(ls, i + 1).last() == ls[i as int]);
                assert(views_of(cells@) == place_clue(
                    place_clues(blank_grid(rows as nat, cols as nat), taken_clues(ls, i as int)),
                    ls[i as int],
                ));
            }
        }
        proof {
            assert(puzzle_ok(text@));
            assert(taken_clues(ls, ls.len() as int) == clue_lines(text@));
        }
        let grid_size = GridSize { rows, cols };
        Some(Grid { grid_size, cells })
    }
}

/// The cell a solution character denotes: a digit is a clue of that value,
/// `x` is water, anything else is land.
pub open spec fn sol_cell(c: char) -> CellState {
    if is_digit(c) {
        CellState::Value(digit_val(c) as i8)
    } else if c == 'x' {
        CellState::River
    } else {
        CellState::Island
    }
}

/// The row of cells a solution line denotes.
pub open spec fn sol_row(l: Seq<char>) -> Seq<CellState> {
    Seq::new(l.len(), |j: int| sol_cell(l[j]))
}

/// A well-formed solution description: at least one line, every line as long
/// as the first.
pub open spec fn solution_ok(s: Seq<char>) -> bool {
    let ls = spec_lines(s);
    &&& ls.len() >= 1
    &&& forall|i: int| 0 <= i < ls.len() ==> (#[trigger] ls[i]).len() == ls[0].len()
}

/// The grid a well-formed solution description denotes.
pub open spec fn solution_grid(s: Seq<char>) -> Seq<Seq<CellState>> {
    let ls = spec_lines(s);
    Seq::new(ls.len(), |i: int| sol_row(ls[i]))
}

/// The row count of a solution description: its number of lines.
pub open spec fn solution_rows(s: Seq<char>) -> nat {
    spec_lines(s).len()
}

/// The column count of a solution description: the length of its first line.
pub open spec fn solution_cols(s: Seq<char>) -> nat {
    spec_lines(s)[0].len()
}

impl Grid {
    /// Parse a solution description: one line per row, one character per
    /// cell. `None` exactly when the text is empty or a line differs in
    /// length from the first.
    pub fn from_solution_string(text: String) -> (r: Option<Grid>)
        ensures
            r is Some <==> solution_ok(text@),
            r matches Some(g) ==> ({
                &&& g.wf()
                &&& g.grid_size.rows == solution_rows(text@)
                &&& g.grid_size.cols == solution_cols(text@)
                &&& g@ == solution_grid(text@)
            }),
    {
        let chars = str_to_chars(text.as_str());
        let lines = split_lines(&chars);
        let ghost ls = spec_lines(text@);
        if lines.len() == 0 {
            return None;
        }
        proof {
            assert(views_of(lines@)[0] == lines@[0]@);
        }
        let cols = lines[0].len();
        let nlines = lines.len();
        let mut cells: Vec<Vec<CellState>> = Vec::new();
        for i in 0..nlines
            invariant
                cells@.len() == i,
                cols == ls[0].len(),
                forall|r: int| 0 <= r < i ==> (#[trigger] ls[r]).len() == ls[0].len(),
                forall|r: int| 0 <= r < i ==> (#[trigger] cells@[r])@ == sol_row(ls[r]),
        {
            let line = &lines[i];
            proof {
                assert(views_of(lines@)[i as int] == lines@[i as int]@);
            }
            if line.len() != cols {
                return None;
            }
            let mut row: Vec<CellState> = Vec::new();
            for j in 0..cols
                invariant
                    row@.len() == j,
                    forall|k: int|
                        0 <= k < j ==> (#[trigger] row@[k]) == sol_cell(ls[i as int][k]),
            {
                let c = line[j];
                let u = c as u32;
                let cell = if 48 <= u && u <= 57 {
                    CellState::Value((u - 48) as i8)
                } else if c == 'x' {
                    CellState::River
                } else {
                    CellState::Island
                };
                row.push(cell);
            }
            proof {
                assert(row@ =~= sol_row(ls[i as int]));
            }
            cells.push(row);
        }
        proof {
            assert(views_of(cells@) =~~= solution_grid(text@));
        }
        let grid_size = GridSize { rows: nlines, cols };
        Some(Grid { grid_size, cells })
    }
}

/// Whether every cell of a grid can be drawn as one character.
pub open spec fn grid_renderable(g: Seq<Seq<CellState>>) -> bool {
    forall|r: int, c: int|
        0 <= r < g.len() && 0 <= c < g[r].len() ==> (#[trigger] g[r][c]).spec_renderable()
}

/// The characters of one rendered row.
pub open spec fn render_row(row: Seq<CellState>) -> Seq<char> {
    Seq::new(row.len(), |j: int| row[j].spec_char())
}

/// The rendering of a grid: each row's characters followed by a newline.
pub open spec fn render_grid(g: Seq<Seq<CellState>>) -> Seq<char>
    decreases g.len(),
{
    if g.len() == 0 {
        Seq::<char>::empty()
    } else {
        render_grid(g.drop_last()) + render_row(g.last()) + seq!['\n']
    }
}

impl Grid {
    /// Render the grid one character per cell, one newline-terminated line
    /// per row; `None` when some clue value has no single-digit rendering.
    pub fn render(&self) -> (r: Option<Vec<char>>)
        requires
            self.wf(),
        ensures
            r is Some <==> grid_renderable(self@),
            r matches Some(v) ==> v@ == render_grid(self@),
    {
        let mut out: Vec<char> = Vec::new();
        let rows = self.grid_size.rows;
        let cols = self.grid_size.cols;
        proof {
            assert(self@.subrange(0, 0) =~= Seq::<Seq<CellState>>::empty());
        }
        for i in 0..rows
            invariant
                forall|r: int, c: int|
                    0 <= r < i && 0 <= c < cols ==> (#[trigger] self@[r][c]).spec_renderable(),
                out@ == render_grid(self@.subrange(0, i as int)),
        {
            for j in 0..cols
                invariant
                    forall|c: int|
                        0 <= c < j ==> (#[trigger] self@[i as int][c]).spec_renderable(),
                    out@ == render_grid(self@.subrange(0, i as int)) + render_row(
                        self@[i as int],
                    ).subrange(0, j as int),
            {
                let cell = self.cells[i][j];
                match cell.render_char() {
                    Some(ch) => {
                        out.push(ch);
                        proof {
                            assert(render_row(self@[i as int]).subrange(0, j as int).push(ch)
                                =~= render_row(self@[i as int]).subrange(0, j + 1));
                            assert(out@ =~= render_grid(self@.subrange(0, i as int))
                                + render_row(self@[i as int]).subrange(0, j + 1));
                        }
                    },
                    None => {
                        return None;
                    },
                }
            }
            out.push('\n');
            proof {
                assert(self@.subrange(0, i + 1).drop_last() =~= self@.subrange(0, i as int));
                assert(self@.subrange(0, i + 1).last() == self@[i as int]);
                assert(render_row(self@[i as int]).subrange(0, cols as int) =~= render_row(
                    self@[i as int],
                ));
                assert(out@ =~= render_grid(self@.subrange(0, i + 1)));
            }
        }
        proof {
            assert(self@.subrange(0, rows as int) =~= self@);
        }
        Some(out)
    }
}

/// Law: the win check collapses land labels. Grids of equal size that agree
/// on which cells are water compare equal, whatever mix of `Blank`, `Island`
/// and `Value` labels their land cells carry, and agree with each other
/// against any solution.
pub proof fn lemma_check_land_equivalence(a: Grid, b: Grid, sol: Grid)
    requires
        a.grid_size == b.grid_size,
        forall|r: int, c: int|
            0 <= r < a.grid_size.rows && 0 <= c < a.grid_size.cols ==> ((
            #[trigger] a@[r][c]) is River <==> b@[r][c] is River),
    ensures
        a.spec_check(b),
        a.spec_check(sol) == b.spec_check(sol),
{
    if a.spec_check(sol) {
        assert forall|r: int, c: int|
            0 <= r < b.grid_size.rows && 0 <= c < b.grid_size.cols implies (
        #[trigger] b@[r][c]).spec_is_same(sol@[r][c]) by {
            assert(a@[r][c].spec_is_same(sol@[r][c]));
            assert(a@[r][c] is River <==> b@[r][c] is River);
        }
    }
    if b.spec_check(sol) {
        assert forall|r: int, c: int|
            0 <= r < a.grid_size.rows && 0 <= c < a.grid_size.cols implies (
        #[trigger] a@[r][c]).spec_is_same(sol@[r][c]) by {
            assert(b@[r][c].spec_is_same(sol@[r][c]));
            assert(a@[r][c] is River <==> b@[r][c] is River);
        }
    }
}

/// Law: grids of different sizes never compare equal, whatever their cells
/// hold.
pub proof fn lemma_check_size_mismatch(a: Grid, b: Grid)
    requires
        a.grid_size != b.grid_size,
    ensures
        !a.spec_check(b),
{
}

/// Law: a puzzle description with no clue lines denotes the all-`Blank` grid
/// of its declared size.
pub proof fn lemma_puzzle_no_clues(s: Seq<char>)
    requires
        spec_lines(s).len() <= 4,
    ensures
        puzzle_grid(s) == blank_grid(puzzle_rows(s), puzzle_cols(s)),
{
    assert(clue_lines(s).len() == 0);
}

/// Write `value` at (row, col) of a grid held as a vector of rows.
fn set_cell(cells: &mut Vec<Vec<CellState>>, row: usize, col: usize, value: CellState)
    requires
        row < old(cells)@.len(),
        col < old(cells)@[row as int]@.len(),
    ensures
        final(cells)@.len() == old(cells)@.len(),
        views_of(final(cells)@) == views_of(old(cells)@).update(
            row as int,
            views_of(old(cells)@)[row as int].update(col as int, value),
        ),
{
    cells[row][col] = value;
    proof {
        assert(views_of(cells@) =~~= views_of(old(cells)@).update(
            row as int,
            views_of(old(cells)@)[row as int].update(col as int, value),
        ));
    }
}

} // verus!
