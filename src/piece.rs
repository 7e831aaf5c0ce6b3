use vstd::prelude::*;

verus! {

/// The kinds of piece on the board.
#[derive(Debug, Copy, Clone, PartialEq, Eq, Structural)]
pub enum PieceKind {
    /// The white rook, seeking to capture black pawns.
    Rook,
    /// A black pawn, which a rook can capture.
    Pawn,
    /// The white bishop, which blocks the path of a rook.
    Bishop,
}

} // verus!
