mod utils;
pub use utils::{Direction, Position, lemma_line_shape};

mod piece;
pub use piece::PieceKind;

mod board;
pub use board::{Board, lemma_get_piece_matches_contents};

mod bench;
pub use bench::{arrange_samples, Benchmark, BenchmarkResult, BoardGenerator, GenerateError, Generator};
