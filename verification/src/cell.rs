//! The value domain of a single grid cell and its transition rules.
use vstd::prelude::*;

verus! {

/// The state of one grid cell. `Blank`, `Island` and `River` are
/// player-togglable; `Value(n)` is a fixed numeric clue (an island size) and
/// never changes during play.
#[derive(Copy, Clone, PartialEq, Eq, Structural, Debug)]
pub enum CellState {
    Blank,
    Island,
    River,
    Value(i8),
}

impl CellState {
    /// The player-toggle transition: a 3-cycle Blank -> River -> Island ->
    /// Blank; clue cells are fixed points.
    pub open spec fn spec_next(self) -> CellState {
        match self {
            CellState::Blank => CellState::River,
            CellState::River => CellState::Island,
            CellState::Island => CellState::Blank,
            CellState::Value(v) => CellState::Value(v),
        }
    }

    /// Advance this cell one step along the toggle cycle.
    pub fn next(&self) -> (r: CellState)
        ensures
            r == self.spec_next(),
    {
        match self {
            CellState::Blank => CellState::River,
            CellState::River => CellState::Island,
            CellState::Island => CellState::Blank,
            CellState::Value(v) => CellState::Value(*v),
        }
    }

    /// Per-cell equality for win-checking: `Blank`, `Island` and `Value(_)`
    /// are all "land"; the predicate holds exactly when the two cells agree
    /// on land versus water.
    pub open spec fn spec_is_same(self, other: CellState) -> bool {
        match self {
            CellState::River => other is River,
            _ => !(other is River),
        }
    }

    /// Compare two cells up to the land/water partition.
    pub fn is_same(&self, other: CellState) -> (r: bool)
        ensures
            r == self.spec_is_same(other),
    {
        match self {
            CellState::River => matches!(other, CellState::River),
            _ => !matches!(other, CellState::River),
        }
    }

    /// Whether this cell can be drawn as a single character: clue values
    /// above 9 have no digit.
    pub open spec fn spec_renderable(self) -> bool {
        self matches CellState::Value(v) ==> 0 <= v <= 9
    }

    /// The display character of a renderable cell: space for `Blank`, `.` for
    /// `Island`, `X` for `River`, the ASCII digit for `Value(n)`.
    pub open spec fn spec_char(self) -> char {
        match self {
            CellState::Blank => ' ',
            CellState::Island => '.',
            CellState::River => 'X',
            CellState::Value(v) => digit_char(v as int),
        }
    }

    /// The one-character rendering of this cell, or `None` for a clue value
    /// outside 0..=9 (multi-digit clues are not representable).
    pub fn render_char(&self) -> (r: Option<char>)
        ensures
            r == (if self.spec_renderable() {
                Some(self.spec_char())
            } else {
                None::<char>
            }),
    {
        match self {
            CellState::Blank => Some(' '),
            CellState::Island => Some('.'),
            CellState::River => Some('X'),
            CellState::Value(v) => {
                let v = *v;
                if v == 0 {
                    Some('0')
                } else if v == 1 {
                    Some('1')
                } else if v == 2 {
                    Some('2')
                } else if v == 3 {
                    Some('3')
                } else if v == 4 {
                    Some('4')
                } else if v == 5 {
                    Some('5')
                } else if v == 6 {
                    Some('6')
                } else if v == 7 {
                    Some('7')
                } else if v == 8 {
                    Some('8')
                } else if v == 9 {
                    Some('9')
                } else {
                    None
                }
            },
        }
    }

    /// The visual tile lookup key: `Blank` -> 0, `Value(v)` -> v,
    /// `Island` -> 10, `River` -> 11.
    pub open spec fn spec_tile_index(self) -> int {
        match self {
            CellState::Blank => 0,
            CellState::Island => 10,
            CellState::River => 11,
            CellState::Value(v) => v as int,
        }
    }

    /// Map this cell to its tile lookup key.
    pub fn tile_index(&self) -> (r: usize)
        requires
            self matches CellState::Value(v) ==> v >= 0,
        ensures
            r == self.spec_tile_index(),
    {
        match self {
            CellState::Blank => 0,
            CellState::Island => 10,
            CellState::River => 11,
            CellState::Value(v) => *v as usize,
        }
    }
}

/// The ASCII digit character of `d`, for 0 <= d <= 9.
pub open spec fn digit_char(d: int) -> char {
    if d == 0 {
        '0'
    } else if d == 1 {
        '1'
    } else if d == 2 {
        '2'
    } else if d == 3 {
        '3'
    } else if d == 4 {
        '4'
    } else if d == 5 {
        '5'
    } else if d == 6 {
        '6'
    } else if d == 7 {
        '7'
    } else if d == 8 {
        '8'
    } else {
        '9'
    }
}

/// Law: every togglable state returns to itself after three toggles.
pub proof fn lemma_next_three_cycle(s: CellState)
    requires
        !(s is Value),
    ensures
        s.spec_next().spec_next().spec_next() == s,
{
}

/// Law: a clue cell is a fixed point of the toggle transition.
pub proof fn lemma_next_fixes_value(n: i8)
    ensures
        CellState::Value(n).spec_next() == CellState::Value(n),
{
}

/// Law: `is_same` holds exactly when the two cells lie on the same side of
/// the land/water partition; in particular it holds between any two
/// land-equivalent cells, whatever their labels.
pub proof fn lemma_is_same_partition(a: CellState, b: CellState)
    ensures
        a.spec_is_same(b) <==> ((a is River) <==> (b is River)),
{
}

} // verus!
