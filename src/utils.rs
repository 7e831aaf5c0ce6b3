use vstd::prelude::*;

use rand::seq::IteratorRandom;

verus! {

/// The four cardinal directions. North and south move along the rows
/// (towards row 0 and away from it), east and west along the columns
/// (away from column 0 and towards it).
#[derive(Copy, Clone, Debug, PartialEq, Eq, Structural)]
pub enum Direction {
    North,
    South,
    East,
    West,
}

impl Direction {
    /// The unit step of the direction, as (row delta, column delta).
    pub open spec fn vector_spec(self) -> (int, int) {
        match self {
            Direction::North => (-1, 0),
            Direction::South => (1, 0),
            Direction::East => (0, 1),
            Direction::West => (0, -1),
        }
    }

    /// The four directions in their iteration order.
    pub open spec fn all_spec() -> Seq<Direction> {
        seq![Direction::North, Direction::East, Direction::South, Direction::West]
    }

    /// Returns the unit step used to move one cell in this direction,
    /// as (row delta, column delta).
    pub fn get_vector(&self) -> (r: (i32, i32))
        ensures
            r.0 as int == self.vector_spec().0,
            r.1 as int == self.vector_spec().1,
    {
        match self {
            Direction::North => (-1, 0),
            Direction::South => (1, 0),
            Direction::East => (0, 1),
            Direction::West => (0, -1),
        }
    }

    /// Returns all cardinal directions: north, east, south, west.
    pub fn all() -> (r: Vec<Direction>)
        ensures
            r@ == Self::all_spec(),
    {
        let r = vec![Direction::North, Direction::East, Direction::South, Direction::West];
        assert(r@ =~= Self::all_spec());
        r
    }
}

/// A cell of the board, identified by its row and column numbers.
#[derive(Debug, PartialEq, Copy, Clone, Hash, Eq, Structural)]
pub struct Position {
    pub row: u32,
    pub col: u32,
}

impl Position {
    /// The position lies on a board of `size` cells per side.
    pub open spec fn valid(self, size: nat) -> bool {
        self.row < size && self.col < size
    }

    /// The number of cells between this position and the board's edge
    /// in direction `d`.
    pub open spec fn edge_distance(self, d: Direction, size: nat) -> nat {
        match d {
            Direction::North => self.row as nat,
            Direction::West => self.col as nat,
            Direction::South => (size - 1 - self.row) as nat,
            Direction::East => (size - 1 - self.col) as nat,
        }
    }

    /// The position `k` unit steps away in direction `d`.
    pub open spec fn step(self, d: Direction, k: int) -> Position {
        match d {
            Direction::North => Position { row: (self.row - k) as u32, col: self.col },
            Direction::South => Position { row: (self.row + k) as u32, col: self.col },
            Direction::East => Position { row: self.row, col: (self.col + k) as u32 },
            Direction::West => Position { row: self.row, col: (self.col - k) as u32 },
        }
    }

    /// The cells from this position (excluded) to the edge of the board,
    /// nearest first.
    pub open spec fn line_spec(self, d: Direction, size: nat) -> Seq<Position> {
        Seq::new(self.edge_distance(d, size), |i: int| self.step(d, i + 1))
    }

    /// The number of unit steps between two positions.
    pub open spec fn distance(self, other: Position) -> nat {
        let dr = self.row - other.row;
        let dc = self.col - other.col;
        ((if dr < 0 { -dr } else { dr }) + (if dc < 0 { -dc } else { dc })) as nat
    }

    /// Returns the position at the given row and column.
    pub fn new(row: u32, col: u32, board_size: u32) -> (r: Position)
        requires
            row < board_size,
            col < board_size,
        ensures
            r.row == row,
            r.col == col,
    {
        Position { row, col }
    }

    /// Returns `count` distinct cells of a board of `max` cells per side,
    /// drawn at random, or every cell if there are fewer.
    pub fn generate_unique_positions(count: u32, max: u32) -> (r: Vec<Position>)
        requires
            max * max <= u32::MAX,
        ensures
            r@.len() == if count <= max * max {
                count as int
            } else {
                max * max
            },
            distinct_cells(r@, max as nat),
    {
        let all = all_cells(max);
        let r = choose_cells(all, count as usize);
        proof {
            assert forall|i: int| 0 <= i < r@.len() implies #[trigger] r@[i].valid(max as nat) by {
                let j = choose|j: int| 0 <= j < all@.len() && all@[j] == r@[i];
                assert(all@[j].valid(max as nat));
            }
        }
        r
    }

    /// Returns the cells from this position (excluded) to the edge of the
    /// board in the given direction, nearest first.
    pub fn line(&self, direction: Direction, board_size: u32) -> (r: Vec<Position>)
        requires
            self.valid(board_size as nat),
        ensures
            r@ == self.line_spec(direction, board_size as nat),
    {
        let mut r: Vec<Position> = Vec::new();
        match direction {
            Direction::West => {
                let mut c: u32 = self.col;
                while c > 0
                    invariant
                        c <= self.col,
                        direction == Direction::West,
                        self.valid(board_size as nat),
                        r@.len() == (self.col - c),
                        forall|j: int| 0 <= j < r@.len() ==> r@[j] == self.step(direction, j + 1),
                    decreases c,
                {
                    c = c - 1;
                    r.push(Position { row: self.row, col: c });
                }
            },
            Direction::North => {
                let mut c: u32 = self.row;
                while c > 0
                    invariant
                        c <= self.row,
                        direction == Direction::North,
                        self.valid(board_size as nat),
                        r@.len() == (self.row - c),
                        forall|j: int| 0 <= j < r@.len() ==> r@[j] == self.step(direction, j + 1),
                    decreases c,
                {
                    c = c - 1;
                    r.push(Position { row: c, col: self.col });
                }
            },
            Direction::East => {
                let mut c: u32 = self.col + 1;
                while c < board_size
                    invariant
                        self.col < c <= board_size,
                        direction == Direction::East,
                        self.valid(board_size as nat),
                        r@.len() == (c - self.col - 1),
                        forall|j: int| 0 <= j < r@.len() ==> r@[j] == self.step(direction, j + 1),
                    decreases board_size - c,
                {
                    r.push(Position { row: self.row, col: c });
                    c = c + 1;
                }
            },
            Direction::South => {
                let mut c: u32 = self.row + 1;
                while c < board_size
                    invariant
                        self.row < c <= board_size,
                        direction == Direction::South,
                        self.valid(board_size as nat),
                        r@.len() == (c - self.row - 1),
                        forall|j: int| 0 <= j < r@.len() ==> r@[j] == self.step(direction, j + 1),
                    decreases board_size - c,
                {
                    r.push(Position { row: c, col: self.col });
                    c = c + 1;
                }
            },
        }
        assert(r@ =~= self.line_spec(direction, board_size as nat));
        r
    }
}

/// Every position of `s` is on a board of `size` cells per side, and
/// positions never repeat.
pub open spec fn distinct_cells(s: Seq<Position>, size: nat) -> bool {
    &&& s.no_duplicates()
    &&& forall|i: int| 0 <= i < s.len() ==> #[trigger] s[i].valid(size)
}

/// `a` comes before `b` when the cells are read row by row.
pub open spec fn cell_before(a: Position, b: Position) -> bool {
    a.row < b.row || (a.row == b.row && a.col < b.col)
}

/// Relies on rand's `IteratorRandom::choose_multiple`, drawing from
/// `rand::thread_rng`: it returns `amount` items of the iterator, or all of
/// them when there are fewer, each item of the iterator taken at most once.
#[verifier::external_body]
fn choose_cells(cells: Vec<Position>, amount: usize) -> (r: Vec<Position>)
    ensures
        r@.len() == if amount <= cells@.len() {
            amount as int
        } else {
            cells@.len() as int
        },
        forall|i: int| 0 <= i < r@.len() ==> cells@.contains(#[trigger] r@[i]),
        cells@.no_duplicates() ==> r@.no_duplicates(),
{
    cells.into_iter().choose_multiple(&mut rand::thread_rng(), amount)
}

/// Returns every cell of a board of `size` cells per side, row by row.
fn all_cells(size: u32) -> (r: Vec<Position>)
    requires
        size * size <= u32::MAX,
    ensures
        r@.len() == size * size,
        distinct_cells(r@, size as nat),
{
    let mut r: Vec<Position> = Vec::new();
    let mut row: u32 = 0;
    while row < size
        invariant
            row <= size,
            size * size <= u32::MAX,
            r@.len() == row * size,
            forall|i: int| 0 <= i < r@.len() ==> #[trigger] r@[i].valid(size as nat),
            forall|i: int| 0 <= i < r@.len() ==> #[trigger] r@[i].row < row,
            forall|i: int, j: int| 0 <= i < j < r@.len() ==> cell_before(r@[i], r@[j]),
        decreases size - row,
    {
        let mut col: u32 = 0;
        while col < size
            invariant
                row < size,
                col <= size,
                size * size <= u32::MAX,
                r@.len() == row * size + col,
                forall|i: int| 0 <= i < r@.len() ==> #[trigger] r@[i].valid(size as nat),
                forall|i: int|
                    0 <= i < r@.len() ==> (#[trigger] r@[i]).row < row || (r@[i].row == row
                        && r@[i].col < col),
                forall|i: int, j: int| 0 <= i < j < r@.len() ==> cell_before(r@[i], r@[j]),
            decreases size - col,
        {
            r.push(Position { row, col });
            col = col + 1;
        }
        assert(row * size + size == (row + 1) * size) by (nonlinear_arith);
        row = row + 1;
    }
    assert forall|i: int, j: int| 0 <= i < r@.len() && 0 <= j < r@.len() && i != j implies r@[i]
        != r@[j] by {
        if i < j {
            assert(cell_before(r@[i], r@[j]));
        } else {
            assert(cell_before(r@[j], r@[i]));
        }
    }
    r
}

/// Every cell of a ray lies on the board, none is the start, the ray is
/// ordered nearest first (its i-th cell is i + 1 steps away), and its length
/// is the distance from the start to the edge in that direction.
pub proof fn lemma_line_shape(p: Position, d: Direction, size: u32)
    requires
        p.valid(size as nat),
    ensures
        p.line_spec(d, size as nat).len() == p.edge_distance(d, size as nat),
        forall|i: int|
            0 <= i < p.line_spec(d, size as nat).len() ==> {
                &&& p.line_spec(d, size as nat)[i].valid(size as nat)
                &&& p.line_spec(d, size as nat)[i] != p
                &&& p.distance(p.line_spec(d, size as nat)[i]) == i + 1
                &&& p.line_spec(d, size as nat)[i].row == p.row + (i + 1) * d.vector_spec().0
                &&& p.line_spec(d, size as nat)[i].col == p.col + (i + 1) * d.vector_spec().1
            },
{
    assert forall|i: int| 0 <= i < p.line_spec(d, size as nat).len() implies {
        &&& p.line_spec(d, size as nat)[i].valid(size as nat)
        &&& p.line_spec(d, size as nat)[i] != p
        &&& p.distance(p.line_spec(d, size as nat)[i]) == i + 1
        &&& p.line_spec(d, size as nat)[i].row == p.row + (i + 1) * d.vector_spec().0
        &&& p.line_spec(d, size as nat)[i].col == p.col + (i + 1) * d.vector_spec().1
    } by {
        let k = i + 1;
        let v = d.vector_spec();
        assert(v.0 == 0 ==> k * v.0 == 0) by (nonlinear_arith);
        assert(v.1 == 0 ==> k * v.1 == 0) by (nonlinear_arith);
        assert(v.0 == 1 ==> k * v.0 == k) by (nonlinear_arith);
        assert(v.1 == 1 ==> k * v.1 == k) by (nonlinear_arith);
        assert(v.0 == -1 ==> k * v.0 == -k) by (nonlinear_arith);
        assert(v.1 == -1 ==> k * v.1 == -k) by (nonlinear_arith);
        let q = p.line_spec(d, size as nat)[i];
        match d {
            Direction::North => assert(q.row == p.row - k && q.col == p.col),
            Direction::South => assert(q.row == p.row + k && q.col == p.col),
            Direction::East => assert(q.row == p.row && q.col == p.col + k),
            Direction::West => assert(q.row == p.row && q.col == p.col - k),
        }
    }
}

} // verus!
