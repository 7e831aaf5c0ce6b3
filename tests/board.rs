use chess::{Board, PieceKind, Position};

fn pos(row: u32, col: u32) -> Position {
    Position::new(row, col, 8)
}

#[test]
fn get_piece_finds_added_pieces() {
    let mut b = Board::new(8);
    b.add_rook(pos(1, 1));
    b.add_pawn(pos(2, 2));
    b.add_bishop(pos(3, 3));
    b.add_piece(PieceKind::Pawn, pos(4, 4));
    assert!(matches!(b.get_piece(&pos(1, 1)), Some(PieceKind::Rook)));
    assert!(matches!(b.get_piece(&pos(2, 2)), Some(PieceKind::Pawn)));
    assert!(matches!(b.get_piece(&pos(3, 3)), Some(PieceKind::Bishop)));
    assert!(matches!(b.get_piece(&pos(4, 4)), Some(PieceKind::Pawn)));
    assert!(b.get_piece(&pos(5, 5)).is_none());
}

#[test]
fn remove_piece_frees_the_cell() {
    let mut b = Board::with_capacity(8, 4);
    b.add_pawn(pos(2, 2));
    b.add_bishop(pos(3, 3));
    b.remove_piece(&pos(2, 2));
    assert!(b.get_piece(&pos(2, 2)).is_none());
    assert!(matches!(b.get_piece(&pos(3, 3)), Some(PieceKind::Bishop)));
    b.remove_piece(&pos(6, 6));
    assert_eq!(b.pieces.len(), 1);
}

#[test]
fn clear_and_set_pieces() {
    let mut b = Board::new(8);
    b.add_rook(pos(0, 0));
    b.clear();
    assert!(b.pieces.is_empty());
    assert!(!b.is_rook_present());
    b.set_pieces(vec![(PieceKind::Rook, pos(7, 7)), (PieceKind::Pawn, pos(7, 0))]);
    assert!(b.is_rook_present());
    assert_eq!(b.get_rook_position(), pos(7, 7));
}

#[test]
fn rook_positions_in_order() {
    let mut b = Board::new(8);
    b.add_rook(pos(0, 0));
    b.add_pawn(pos(0, 3));
    b.add_rook(pos(0, 5));
    assert_eq!(b.get_rooks_positions(), vec![pos(0, 0), pos(0, 5)]);
    assert_eq!(b.get_rook_position(), pos(0, 0));
}

#[test]
fn lone_rook_in_corner_captures_nothing() {
    let mut b = Board::new(8);
    b.add_rook(pos(0, 0));
    assert_eq!(b.get_rook_captures(), 0);
    assert_eq!(b.get_rook_captures_par(), 0);
}

#[test]
fn rook_captures_pawn_east() {
    let mut b = Board::new(8);
    b.add_rook(pos(3, 3));
    b.add_pawn(pos(3, 6));
    assert_eq!(b.get_rook_captures(), 1);
    assert_eq!(b.get_rook_captures_par(), 1);
}

#[test]
fn bishop_blocks_the_capture() {
    let mut b = Board::new(8);
    b.add_rook(pos(3, 3));
    b.add_bishop(pos(3, 5));
    b.add_pawn(pos(3, 6));
    assert_eq!(b.get_rook_captures(), 0);
    assert_eq!(b.get_rook_captures_par(), 0);
}

#[test]
fn rook_captures_in_all_four_directions() {
    let mut b = Board::new(8);
    b.add_rook(pos(4, 4));
    b.add_pawn(pos(0, 4));
    b.add_pawn(pos(7, 4));
    b.add_pawn(pos(4, 1));
    b.add_pawn(pos(4, 6));
    b.add_pawn(pos(4, 7));
    assert_eq!(b.get_rook_captures(), 4);
    assert_eq!(b.get_rook_captures_par(), 4);
    assert_eq!(b.get_rooks_captures(), 4);
}

#[test]
fn shared_pawn_counts_once() {
    let mut b = Board::new(8);
    b.add_rook(pos(0, 0));
    b.add_rook(pos(0, 5));
    b.add_pawn(pos(0, 3));
    assert_eq!(b.get_rooks_captures(), 1);
    assert_eq!(b.get_rooks_captures_par(), 1);
    let mut alone_first = Board::new(8);
    alone_first.add_rook(pos(0, 0));
    alone_first.add_pawn(pos(0, 3));
    let mut alone_second = Board::new(8);
    alone_second.add_rook(pos(0, 5));
    alone_second.add_pawn(pos(0, 3));
    assert_eq!(alone_first.get_rook_captures() + alone_second.get_rook_captures(), 2);
}

#[test]
fn rook_blocks_another_rook() {
    let mut b = Board::new(8);
    b.add_rook(pos(2, 0));
    b.add_rook(pos(2, 3));
    b.add_pawn(pos(2, 6));
    assert_eq!(b.get_rooks_captures(), 1);
    assert_eq!(b.get_rooks_captures_par(), 1);
}

#[test]
fn no_pawns_means_no_captures() {
    let mut b = Board::new(8);
    b.add_rook(pos(3, 3));
    b.add_bishop(pos(3, 5));
    b.add_bishop(pos(0, 3));
    assert_eq!(b.get_rook_captures(), 0);
    assert_eq!(b.get_rooks_captures(), 0);
    b.add_rook(pos(6, 6));
    assert_eq!(b.get_rooks_captures(), 0);
    assert_eq!(b.get_rooks_captures_par(), 0);
}

#[test]
fn no_rooks_means_no_captures() {
    let mut b = Board::new(8);
    b.add_pawn(pos(1, 1));
    assert_eq!(b.get_rooks_captures(), 0);
    assert_eq!(b.get_rooks_captures_par(), 0);
}

#[test]
fn text_form_round_trip() {
    let rows: Vec<Vec<char>> = vec!["R..p".chars().collect(), ".B..".chars().collect(), "x p ".chars().collect()];
    let b = Board::from_rows(4, &rows).unwrap();
    assert_eq!(b.size, 4);
    assert!(matches!(b.get_piece(&Position::new(0, 0, 4)), Some(PieceKind::Rook)));
    assert!(matches!(b.get_piece(&Position::new(0, 3, 4)), Some(PieceKind::Pawn)));
    assert!(matches!(b.get_piece(&Position::new(1, 1, 4)), Some(PieceKind::Bishop)));
    assert!(matches!(b.get_piece(&Position::new(2, 2, 4)), Some(PieceKind::Pawn)));
    assert!(b.get_piece(&Position::new(2, 0, 4)).is_none());
    assert_eq!(b.pieces.len(), 4);
    let shown: Vec<String> = b.render().into_iter().map(|l| l.into_iter().collect()).collect();
    assert_eq!(shown, vec!["R..p", ".B..", "..p.", "...."]);
}

#[test]
fn text_form_rejects_piece_outside_board() {
    let rows: Vec<Vec<char>> = vec!["...".chars().collect(), "..R".chars().collect()];
    assert!(Board::from_rows(2, &rows).is_none());
    let rows: Vec<Vec<char>> = vec!["..".chars().collect(), "..".chars().collect(), "p.".chars().collect()];
    assert!(Board::from_rows(2, &rows).is_none());
    let rows: Vec<Vec<char>> = vec!["..".chars().collect(), ".. ".chars().collect()];
    assert!(Board::from_rows(2, &rows).is_some());
}
