use vstd::prelude::*;

use crate::board::Board;
use crate::piece::PieceKind;
use crate::utils::{Position, distinct_cells};

verus! {

/// Something that produces values, such as random boards.
pub trait Generator {
    type Output;

    /// The generator's settings allow it to run.
    spec fn ready(&self) -> bool;

    /// `out` is a value that the generator may produce.
    spec fn produces(&self, out: Self::Output) -> bool;

    /// Produces a value.
    fn generate(&self) -> (out: Self::Output)
        requires
            self.ready(),
        ensures
            self.produces(out),
    ;
}

/// Why a board could not be generated.
#[derive(Debug, Clone, Copy, PartialEq, Eq, Structural)]
pub enum GenerateError {
    /// More pieces were asked for than the board has cells.
    TooManyPieces,
}

/// Produces random boards of a given size, with given numbers of pawns,
/// bishops and rooks, each on its own cell.
pub struct BoardGenerator {
    pub board_size: u32,
    pub pawn_count: u32,
    pub bishop_count: u32,
    pub rook_count: u32,
}

impl BoardGenerator {
    /// The number of pieces asked for.
    pub open spec fn total(&self) -> int {
        self.bishop_count + self.pawn_count + self.rook_count
    }

    /// The kind of the `i`-th piece of a generated board: bishops come
    /// first, then pawns, then rooks.
    pub open spec fn kind_at(&self, i: int) -> PieceKind {
        if i < self.bishop_count {
            PieceKind::Bishop
        } else if i < self.bishop_count + self.pawn_count {
            PieceKind::Pawn
        } else {
            PieceKind::Rook
        }
    }

    /// Creates a generator of boards of the given size, with an eighth of
    /// the cells' number of each kind of piece.
    pub fn new(board_size: u32) -> (r: BoardGenerator)
        requires
            board_size * board_size <= u32::MAX,
        ensures
            r.board_size == board_size,
            r.pawn_count == board_size * board_size / 8,
            r.bishop_count == board_size * board_size / 8,
            r.rook_count == board_size * board_size / 8,
    {
        let count = board_size * board_size / 8;
        BoardGenerator { board_size, pawn_count: count, bishop_count: count, rook_count: count }
    }

    /// Sets the number of pawns.
    pub fn pawn_count(self, pawn_count: u32) -> (r: BoardGenerator)
        ensures
            r == (BoardGenerator { pawn_count, ..self }),
    {
        BoardGenerator { pawn_count, ..self }
    }

    /// Sets the number of bishops.
    pub fn bishop_count(self, bishop_count: u32) -> (r: BoardGenerator)
        ensures
            r == (BoardGenerator { bishop_count, ..self }),
    {
        BoardGenerator { bishop_count, ..self }
    }

    /// Sets the number of rooks.
    pub fn rook_count(self, rook_count: u32) -> (r: BoardGenerator)
        ensures
            r == (BoardGenerator { rook_count, ..self }),
    {
        BoardGenerator { rook_count, ..self }
    }
}

impl Generator for BoardGenerator {
    type Output = Result<Board, GenerateError>;

    open spec fn ready(&self) -> bool {
        self.board_size * self.board_size <= u32::MAX
    }

    open spec fn produces(&self, out: Result<Board, GenerateError>) -> bool {
        match out {
            Ok(b) => {
                &&& self.total() <= self.board_size * self.board_size
                &&& b.size == self.board_size
                &&& b.wf()
                &&& b.pieces@.len() == self.total()
                &&& forall|i: int|
                    0 <= i < b.pieces@.len() ==> (#[trigger] b.pieces@[i]).0 == self.kind_at(i)
            },
            Err(e) => e == GenerateError::TooManyPieces && self.total() > self.board_size
                * self.board_size,
        }
    }

    /// Produces a board whose pieces stand on cells drawn at random, each
    /// cell at most once; fails if more pieces are asked for than the board
    /// has cells.
    fn generate(&self) -> (out: Result<Board, GenerateError>) {
        let total: u64 = self.bishop_count as u64 + self.pawn_count as u64 + self.rook_count as u64;
        let cells: u64 = self.board_size as u64 * self.board_size as u64;
        if total > cells {
            return Err(GenerateError::TooManyPieces);
        }
        let chosen = Position::generate_unique_positions(total as u32, self.board_size);
        let mut pieces: Vec<(PieceKind, Position)> = Vec::new();
        let first_pawn: u64 = self.bishop_count as u64;
        let first_rook: u64 = self.bishop_count as u64 + self.pawn_count as u64;
        let mut i: usize = 0;
        while i < chosen.len()
            invariant
                chosen@.len() == total,
                total <= cells,
                cells == self.board_size * self.board_size,
                first_pawn == self.bishop_count,
                first_rook == self.bishop_count + self.pawn_count,
                distinct_cells(chosen@, self.board_size as nat),
                i <= chosen@.len(),
                pieces@.len() == i,
                forall|j: int| 0 <= j < i ==> (#[trigger] pieces@[j]).1 == chosen@[j],
                forall|j: int| 0 <= j < i ==> (#[trigger] pieces@[j]).0 == self.kind_at(j),
            decreases chosen@.len() - i,
        {
            let kind = if (i as u64) < first_pawn {
                PieceKind::Bishop
            } else if (i as u64) < first_rook {
                PieceKind::Pawn
            } else {
                PieceKind::Rook
            };
            pieces.push((kind, chosen[i]));
            i = i + 1;
        }
        let mut board = Board::new(self.board_size);
        board.set_pieces(pieces);
        Ok(board)
    }
}

/// The settings of a timing campaign: the thread counts and board sizes
/// to try, the number of runs of each, and the named functions to time.
pub struct Benchmark<F> {
    pub sizes: Option<Vec<usize>>,
    pub threads: Option<Vec<usize>>,
    pub runs: usize,
    pub functions: Vec<(String, F)>,
}

impl<F> Benchmark<F> {
    /// Creates a campaign with no sizes, no thread counts, twenty runs and
    /// no function.
    pub fn new() -> (r: Self)
        ensures
            r.sizes is None,
            r.threads is None,
            r.runs == 20,
            r.functions@.len() == 0,
    {
        Benchmark { sizes: None, threads: None, runs: 20, functions: Vec::new() }
    }

    /// Sets the board sizes to try.
    pub fn sizes(self, sizes: Vec<usize>) -> (r: Self)
        ensures
            r.sizes == Some(sizes),
            r.threads == self.threads,
            r.runs == self.runs,
            r.functions@ == self.functions@,
    {
        Benchmark { sizes: Some(sizes), ..self }
    }

    /// Sets the thread counts to try.
    pub fn threads(self, threads: Vec<usize>) -> (r: Self)
        ensures
            r.threads == Some(threads),
            r.sizes == self.sizes,
            r.runs == self.runs,
            r.functions@ == self.functions@,
    {
        Benchmark { threads: Some(threads), ..self }
    }

    /// Sets the number of runs for each thread count and size.
    pub fn runs(self, runs: usize) -> (r: Self)
        ensures
            r.runs == runs,
            r.sizes == self.sizes,
            r.threads == self.threads,
            r.functions@ == self.functions@,
    {
        Benchmark { runs, ..self }
    }

    /// Adds a function to time, under a name.
    pub fn add_function(self, function: F, name: String) -> (r: Self)
        ensures
            r.functions@ == self.functions@.push((name, function)),
            r.sizes == self.sizes,
            r.threads == self.threads,
            r.runs == self.runs,
    {
        let mut functions = self.functions;
        functions.push((name, function));
        Benchmark { functions, ..self }
    }
}

/// The timings of a campaign: `data[t][s][r][f]` is the time, in
/// nanoseconds, of run `r` of function `f` on a board of the `s`-th size
/// with the `t`-th thread count.
pub struct BenchmarkResult {
    pub data: Vec<Vec<Vec<Vec<u64>>>>,
    pub functions: Vec<String>,
    pub threads: Vec<usize>,
    pub sizes: Vec<usize>,
}

impl BenchmarkResult {
    /// Gathers timings with the names of their axes.
    pub fn new(
        data: Vec<Vec<Vec<Vec<u64>>>>,
        functions: Vec<String>,
        threads: Vec<usize>,
        sizes: Vec<usize>,
    ) -> (r: Self)
        ensures
            r.data@ == data@,
            r.functions@ == functions@,
            r.threads@ == threads@,
            r.sizes@ == sizes@,
    {
        BenchmarkResult { data, functions, threads, sizes }
    }
}

/// Where the time of run `c` of function `d`, on the `b`-th size with the
/// `a`-th thread count, stands among samples taken in that nesting order.
pub open spec fn sample_index(
    a: int,
    b: int,
    c: int,
    d: int,
    sizes: int,
    runs: int,
    functions: int,
) -> int {
    ((a * sizes + b) * runs + c) * functions + d
}

/// `row` holds the samples of the functions for one run.
pub open spec fn row_matches(
    row: Seq<u64>,
    samples: Seq<u64>,
    a: int,
    b: int,
    c: int,
    sizes: int,
    runs: int,
    functions: int,
) -> bool {
    &&& row.len() == functions
    &&& forall|d: int|
        0 <= d < functions ==> #[trigger] row[d] == samples[sample_index(
            a,
            b,
            c,
            d,
            sizes,
            runs,
            functions,
        )]
}

/// `block` holds the samples of the runs on one size.
pub open spec fn block_matches(
    block: Seq<Vec<u64>>,
    samples: Seq<u64>,
    a: int,
    b: int,
    sizes: int,
    runs: int,
    functions: int,
) -> bool {
    &&& block.len() == runs
    &&& forall|c: int|
        0 <= c < runs ==> row_matches(#[trigger] block[c]@, samples, a, b, c, sizes, runs, functions)
}

/// `plane` holds the samples of the sizes for one thread count.
pub open spec fn plane_matches(
    plane: Seq<Vec<Vec<u64>>>,
    samples: Seq<u64>,
    a: int,
    sizes: int,
    runs: int,
    functions: int,
) -> bool {
    &&& plane.len() == sizes
    &&& forall|b: int|
        0 <= b < sizes ==> block_matches(#[trigger] plane[b]@, samples, a, b, sizes, runs, functions)
}

/// `data[a][b][c][d]` is the sample of function `d` in run `c` on the `b`-th
/// size with the `a`-th thread count.
pub open spec fn table_matches(
    data: Seq<Vec<Vec<Vec<u64>>>>,
    samples: Seq<u64>,
    threads: int,
    sizes: int,
    runs: int,
    functions: int,
) -> bool {
    &&& data.len() == threads
    &&& forall|a: int|
        0 <= a < threads ==> plane_matches(#[trigger] data[a]@, samples, a, sizes, runs, functions)
}

proof fn lemma_index_bound(
    a: int,
    b: int,
    c: int,
    d: int,
    threads: int,
    sizes: int,
    runs: int,
    functions: int,
)
    requires
        0 <= a < threads,
        0 <= b < sizes,
        0 <= c < runs,
        0 <= d < functions,
    ensures
        0 <= sample_index(a, b, c, d, sizes, runs, functions) < threads * sizes * runs * functions,
{
    let x = a * sizes + b;
    assert(0 <= x < threads * sizes) by (nonlinear_arith)
        requires
            x == a * sizes + b,
            0 <= a < threads,
            0 <= b < sizes,
    ;
    let y = x * runs + c;
    assert(0 <= y < threads * sizes * runs) by (nonlinear_arith)
        requires
            y == x * runs + c,
            0 <= x < threads * sizes,
            0 <= c < runs,
    ;
    assert(0 <= y * functions + d < threads * sizes * runs * functions) by (nonlinear_arith)
        requires
            0 <= y < threads * sizes * runs,
            0 <= d < functions,
    ;
}

/// Arranges samples taken thread count by thread count, then size by size,
/// then run by run, then function by function, into a table indexed in that
/// order. Returns `None` if their number is not the product of the four
/// counts.
pub fn arrange_samples(
    samples: &Vec<u64>,
    threads: usize,
    sizes: usize,
    runs: usize,
    functions: usize,
) -> (r: Option<Vec<Vec<Vec<Vec<u64>>>>>)
    ensures
        r is Some <==> samples@.len() == threads * sizes * runs * functions,
        r matches Some(data) ==> table_matches(
            data@,
            samples@,
            threads as int,
            sizes as int,
            runs as int,
            functions as int,
        ),
{
    let n = samples.len();
    if threads == 0 || sizes == 0 || runs == 0 || functions == 0 {
        assert(threads * sizes * runs * functions == 0) by (nonlinear_arith)
            requires
                threads == 0 || sizes == 0 || runs == 0 || functions == 0,
        ;
        if samples.len() != 0 {
            return None;
        }
    } else {
        let total = match threads.checked_mul(sizes) {
            Some(p) => match p.checked_mul(runs) {
                Some(q) => match q.checked_mul(functions) {
                    Some(t) => t,
                    None => {
                        assert(q * functions == threads * sizes * runs * functions);
                        return None;
                    },
                },
                None => {
                    assert(p * runs * functions >= p * runs) by (nonlinear_arith)
                        requires
                            functions >= 1,
                            p * runs >= 0,
                    ;
                    assert(p * runs * functions == threads * sizes * runs * functions);
                    return None;
                },
            },
            None => {
                assert(threads * sizes * runs * functions >= threads * sizes) by (nonlinear_arith)
                    requires
                        functions >= 1,
                        runs >= 1,
                        threads * sizes >= 0,
                ;
                return None;
            },
        };
        if total != samples.len() {
            return None;
        }
    }
    let ghost (ts, ss, rs, fs) = (threads as int, sizes as int, runs as int, functions as int);
    let mut data: Vec<Vec<Vec<Vec<u64>>>> = Vec::new();
    let mut k: usize = 0;
    let mut a: usize = 0;
    assert(sample_index(0, 0, 0, 0, ss, rs, fs) == 0) by (nonlinear_arith);
    while a < threads
        invariant
            samples@.len() == ts * ss * rs * fs,
            n == samples@.len(),
            ts == threads, ss == sizes, rs == runs, fs == functions,
            a <= threads,
            data@.len() == a,
            k == sample_index(a as int, 0, 0, 0, ss, rs, fs),
            forall|i: int| 0 <= i < a ==> plane_matches(#[trigger] data@[i]@, samples@, i, ss, rs, fs),
        decreases threads - a,
    {
        let mut plane: Vec<Vec<Vec<u64>>> = Vec::new();
        let mut b: usize = 0;
        while b < sizes
            invariant
                samples@.len() == ts * ss * rs * fs,
                n == samples@.len(),
            n == samples@.len(),
                ts == threads, ss == sizes, rs == runs, fs == functions,
                a < threads,
                b <= sizes,
                plane@.len() == b,
                k == sample_index(a as int, b as int, 0, 0, ss, rs, fs),
                forall|j: int| 0 <= j < b ==> block_matches(#[trigger] plane@[j]@, samples@, a as int, j, ss, rs, fs),
            decreases sizes - b,
        {
            let mut block: Vec<Vec<u64>> = Vec::new();
            let mut c: usize = 0;
            while c < runs
                invariant
                    samples@.len() == ts * ss * rs * fs,
                    n == samples@.len(),
                n == samples@.len(),
            n == samples@.len(),
                    ts == threads, ss == sizes, rs == runs, fs == functions,
                    a < threads,
                    b < sizes,
                    c <= runs,
                    block@.len() == c,
                    k == sample_index(a as int, b as int, c as int, 0, ss, rs, fs),
                    forall|k: int| 0 <= k < c ==> row_matches(#[trigger] block@[k]@, samples@, a as int, b as int, k, ss, rs, fs),
                decreases runs - c,
            {
                let mut row: Vec<u64> = Vec::new();
                let mut d: usize = 0;
                while d < functions
                    invariant
                        samples@.len() == ts * ss * rs * fs,
                        n == samples@.len(),
                    n == samples@.len(),
                n == samples@.len(),
            n == samples@.len(),
                        ts == threads, ss == sizes, rs == runs, fs == functions,
                        a < threads,
                        b < sizes,
                        c < runs,
                        d <= functions,
                        row@.len() == d,
                        k == sample_index(a as int, b as int, c as int, d as int, ss, rs, fs),
                        forall|m: int| 0 <= m < d ==> #[trigger] row@[m] == samples@[sample_index(a as int, b as int, c as int, m, ss, rs, fs)],
                    decreases functions - d,
                {
                    proof {
                        lemma_index_bound(a as int, b as int, c as int, d as int, ts, ss, rs, fs);
                    }
                    row.push(samples[k]);
                    k = k + 1;
                    d = d + 1;
                }
                assert(sample_index(a as int, b as int, c as int, fs, ss, rs, fs)
                    == sample_index(a as int, b as int, c + 1, 0, ss, rs, fs)) by (nonlinear_arith);
                block.push(row);
                c = c + 1;
            }
            assert(sample_index(a as int, b as int, rs, 0, ss, rs, fs)
                == sample_index(a as int, b + 1, 0, 0, ss, rs, fs)) by (nonlinear_arith);
            plane.push(block);
            b = b + 1;
        }
        assert(sample_index(a as int, ss, 0, 0, ss, rs, fs)
            == sample_index(a + 1, 0, 0, 0, ss, rs, fs)) by (nonlinear_arith);
        data.push(plane);
        a = a + 1;
    }
    Some(data)
}

} // verus!
