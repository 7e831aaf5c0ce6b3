use chess::{Board, BoardGenerator, GenerateError, Generator, PieceKind};
use std::collections::HashSet;

fn check_board(b: &Board, size: u32, bishops: usize, pawns: usize, rooks: usize) {
    assert_eq!(b.size, size);
    assert_eq!(b.pieces.len(), bishops + pawns + rooks);
    let cells: HashSet<(u32, u32)> = b.pieces.iter().map(|(_, p)| (p.row, p.col)).collect();
    assert_eq!(cells.len(), b.pieces.len());
    for (i, (k, p)) in b.pieces.iter().enumerate() {
        assert!(p.row < size && p.col < size);
        let expected = if i < bishops {
            PieceKind::Bishop
        } else if i < bishops + pawns {
            PieceKind::Pawn
        } else {
            PieceKind::Rook
        };
        assert_eq!(*k, expected);
    }
}

#[test]
fn default_counts_are_an_eighth() {
    let g = BoardGenerator::new(16);
    assert_eq!(g.pawn_count, 32);
    assert_eq!(g.bishop_count, 32);
    assert_eq!(g.rook_count, 32);
    let b = g.generate().unwrap();
    check_board(&b, 16, 32, 32, 32);
}

#[test]
fn custom_counts() {
    let g = BoardGenerator::new(8).pawn_count(5).bishop_count(3).rook_count(2);
    for _ in 0..20 {
        let b = g.generate().unwrap();
        check_board(&b, 8, 3, 5, 2);
    }
}

#[test]
fn whole_board_can_be_filled() {
    let g = BoardGenerator::new(4).pawn_count(6).bishop_count(5).rook_count(5);
    let b = g.generate().unwrap();
    check_board(&b, 4, 5, 6, 5);
}

#[test]
fn too_many_pieces_fail() {
    let g = BoardGenerator::new(2).pawn_count(3).bishop_count(1).rook_count(1);
    assert_eq!(g.generate().err(), Some(GenerateError::TooManyPieces));
}

#[test]
fn parallel_single_rook_agrees_with_sequential() {
    let g = BoardGenerator::new(24).rook_count(1).pawn_count(60).bishop_count(40);
    for _ in 0..30 {
        let b = g.generate().unwrap();
        assert_eq!(b.get_rook_captures(), b.get_rook_captures_par());
        assert_eq!(b.get_rook_captures(), b.get_rooks_captures());
    }
}

#[test]
fn parallel_many_rooks_agrees_with_sequential() {
    for size in [4u32, 8, 16, 32] {
        let g = BoardGenerator::new(size);
        for _ in 0..10 {
            let b = g.generate().unwrap();
            assert_eq!(b.get_rooks_captures(), b.get_rooks_captures_par());
        }
    }
}

#[test]
fn union_never_exceeds_sum_of_single_rooks() {
    let g = BoardGenerator::new(12);
    for _ in 0..20 {
        let b = g.generate().unwrap();
        let mut sum = 0;
        for r in b.get_rooks_positions() {
            let mut alone = Board::new(b.size);
            let others: Vec<_> =
                b.pieces.iter().filter(|(k, p)| *k != PieceKind::Rook || *p == r).cloned().collect();
            alone.set_pieces(others);
            sum += alone.get_rook_captures();
        }
        assert!(b.get_rooks_captures() <= sum);
    }
}
