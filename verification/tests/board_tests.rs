use chess_state_machine::board::Board;
use chess_state_machine::board::Castling;
use chess_state_machine::board::MoveResult;
use chess_state_machine::color::Color;
use chess_state_machine::fen::FromFen;
use chess_state_machine::fen::IntoFen;
use chess_state_machine::piece::Piece;
use chess_state_machine::piece::PieceType;
use chess_state_machine::rule::MoveRule;
use chess_state_machine::rule::MoveType;
use chess_state_machine::square::Square;

#[test]
fn test_empty_board_defaults() {
    let board = Board::empty();
    assert_eq!(Color::White, board.active_color());
    assert!(board.white_castling().kingside);
    assert!(board.white_castling().queenside);
    assert!(board.black_castling().kingside);
    assert!(board.black_castling().queenside);
    assert!(board.en_passant_target().is_none());
    assert_eq!(0, board.half_moves());
    assert_eq!(1, board.full_moves());
    assert_eq!(0, board.pieces().len());
}

#[test]
fn test_set_piece_and_accessors() {
    let mut board = Board::empty();
    board.set_piece(3, 0, PieceType::Queen, Color::White);
    let piece = board.piece(3, 0).expect("queen on d1");
    assert_eq!(PieceType::Queen, piece.piece_type());
    assert_eq!(Color::White, piece.color());
    assert!(!piece.has_moved());
    assert_eq!(0, piece.move_count());
    assert_eq!(None, piece.last_move_turn());
    assert_eq!(3, piece.initial_square().x);
    assert_eq!(0, piece.initial_square().y);
    assert_eq!(1, board.pieces().len());
}

#[test]
fn test_metadata_mut_accessors() {
    let mut board = Board::empty();
    *board.active_color_mut() = Color::Black;
    *board.half_moves_mut() = 17;
    *board.full_moves_mut() = 42;
    *board.en_passant_target_mut() = Some(Square { x: 4, y: 2 });
    board.white_castling_mut().kingside = false;
    board.black_castling_mut().queenside = false;
    assert_eq!(Color::Black, board.active_color());
    assert_eq!(17, board.half_moves());
    assert_eq!(42, board.full_moves());
    assert_eq!(Some(Square { x: 4, y: 2 }), board.en_passant_target());
    assert!(!board.white_castling().kingside);
    assert!(board.white_castling().queenside);
    assert!(!board.black_castling().queenside);
}

#[test]
fn test_change_piece_type_finishes_promotion() {
    let mut board = Board::empty();
    board.set_piece(4, 0, PieceType::King, Color::White);
    board.set_piece(0, 6, PieceType::Pawn, Color::White);
    let result = board.play_move(Square { x: 0, y: 6 }, Square { x: 0, y: 7 });
    assert_eq!(MoveResult::PawnPromote, result);
    board.change_piece_type(Square { x: 0, y: 7 }, PieceType::Queen);
    let promoted = board.piece(0, 7).expect("promoted piece on a8");
    assert_eq!(PieceType::Queen, promoted.piece_type());
    assert_eq!(Color::White, promoted.color());
}

#[test]
fn test_knight_moves_from_start() {
    let board = Board::from_fen("rnbqkbnr/pppppppp/8/8/8/8/PPPPPPPP/RNBQKBNR w KQkq - 0 1");
    let knight = board.piece(6, 0).expect("knight on g1");
    let moves = board.valid_moves(&knight, &Square { x: 6, y: 0 }, true);
    let mut targets: Vec<(u8, u8)> = moves.iter().map(|m| (m.target.x, m.target.y)).collect();
    targets.sort();
    assert_eq!(vec![(5, 2), (7, 2)], targets);
}

#[test]
fn test_sliding_moves_stop_at_blockers() {
    let mut board = Board::empty();
    board.set_piece(0, 0, PieceType::Rook, Color::White);
    board.set_piece(0, 2, PieceType::Pawn, Color::White);
    board.set_piece(3, 0, PieceType::Pawn, Color::Black);
    board.set_piece(7, 7, PieceType::King, Color::White);
    let rook = board.piece(0, 0).expect("rook on a1");
    let moves = board.valid_moves(&rook, &Square { x: 0, y: 0 }, false);
    let mut targets: Vec<(u8, u8)> = moves.iter().map(|m| (m.target.x, m.target.y)).collect();
    targets.sort();
    // Along the file: only a2 (a3 holds an own pawn). Along the rank: b1, c1,
    // and the capture on d1, nothing beyond.
    assert_eq!(vec![(0, 1), (1, 0), (2, 0), (3, 0)], targets);
}

#[test]
fn test_pinned_rook_cannot_leave_the_file() {
    let mut board = Board::empty();
    board.set_piece(4, 0, PieceType::King, Color::White);
    board.set_piece(4, 1, PieceType::Rook, Color::White);
    board.set_piece(4, 7, PieceType::Rook, Color::Black);
    let rook = board.piece(4, 1).expect("rook on e2");
    let moves = board.valid_moves(&rook, &Square { x: 4, y: 1 }, true);
    // Every legal destination stays on the e-file, up to capturing on e8.
    assert!(moves.len() > 0);
    for m in moves.iter() {
        assert_eq!(4, m.target.x);
    }
    let unfiltered = board.valid_moves(&rook, &Square { x: 4, y: 1 }, false);
    assert!(unfiltered.iter().any(|m| m.target.x != 4));
}

#[test]
fn test_pawn_double_move_only_before_first_move() {
    let mut board = Board::from_fen("rnbqkbnr/pppppppp/8/8/8/8/PPPPPPPP/RNBQKBNR w KQkq - 0 1");
    assert_eq!(
        MoveResult::Accepted,
        board.play_move(Square { x: 4, y: 1 }, Square { x: 4, y: 3 })
    );
    assert_eq!(
        MoveResult::Accepted,
        board.play_move(Square { x: 0, y: 6 }, Square { x: 0, y: 5 })
    );
    // The e-pawn has moved once; a new double step is rejected.
    assert_eq!(
        MoveResult::Invalid,
        board.play_move(Square { x: 4, y: 3 }, Square { x: 4, y: 5 })
    );
}

#[test]
fn test_half_move_clock_resets_on_capture() {
    let mut board =
        Board::from_fen("rnbqkbnr/ppp1pppp/8/3p4/4P3/8/PPPP1PPP/RNBQKBNR w KQkq d6 0 2");
    assert_eq!(
        MoveResult::Accepted,
        board.play_move(Square { x: 4, y: 3 }, Square { x: 3, y: 4 })
    );
    assert_eq!(0, board.half_moves());
}

#[test]
fn test_half_move_clock_increments_on_quiet_piece_move() {
    let mut board = Board::from_fen("rnbqkbnr/pppppppp/8/8/8/8/PPPPPPPP/RNBQKBNR w KQkq - 5 3");
    assert_eq!(
        MoveResult::Accepted,
        board.play_move(Square { x: 6, y: 0 }, Square { x: 5, y: 2 })
    );
    assert_eq!(6, board.half_moves());
}

#[test]
fn test_turn_alternation_and_full_moves() {
    let mut board = Board::from_fen("rnbqkbnr/pppppppp/8/8/8/8/PPPPPPPP/RNBQKBNR w KQkq - 0 1");
    assert_eq!(Color::White, board.active_color());
    board.play_move(Square { x: 4, y: 1 }, Square { x: 4, y: 3 });
    assert_eq!(Color::Black, board.active_color());
    assert_eq!(1, board.full_moves());
    board.play_move(Square { x: 4, y: 6 }, Square { x: 4, y: 4 });
    assert_eq!(Color::White, board.active_color());
    assert_eq!(2, board.full_moves());
}

#[test]
fn test_moving_rook_clears_one_castling_flag() {
    let mut board = Board::from_fen("rnbqkbnr/pppppppp/8/8/8/7P/PPPPPPP1/RNBQKBNR w KQkq - 0 2");
    // Moving the rook whose initial file is 7 revokes the queenside flag
    // (revocation is keyed off the rook's initial file).
    assert_eq!(
        MoveResult::Accepted,
        board.play_move(Square { x: 7, y: 0 }, Square { x: 7, y: 1 })
    );
    assert!(board.white_castling().kingside);
    assert!(!board.white_castling().queenside);
    assert!(board.black_castling().kingside);
    assert!(board.black_castling().queenside);
}

#[test]
fn test_knight_move_keeps_castling_rights() {
    let mut board = Board::from_fen("rnbqkbnr/pppppppp/8/8/8/8/PPPPPPPP/RNBQKBNR w KQkq - 0 1");
    assert_eq!(
        MoveResult::Accepted,
        board.play_move(Square { x: 1, y: 0 }, Square { x: 2, y: 2 })
    );
    assert!(board.white_castling().kingside);
    assert!(board.white_castling().queenside);
}

#[test]
fn test_castling_rights_cleared_after_king_move() {
    let mut board =
        Board::from_fen("rnbqkbnr/5ppp/8/ppppp3/2PP4/N2QB3/PP2PPPP/R3KBNR w KQkq e6 0 6");
    assert_eq!(
        MoveResult::Accepted,
        board.play_move(Square { x: 4, y: 0 }, Square { x: 3, y: 1 })
    );
    assert!(!board.white_castling().kingside);
    assert!(!board.white_castling().queenside);
    assert!(board.black_castling().kingside);
    assert!(board.black_castling().queenside);
}

#[test]
fn test_castling_structs() {
    let none = Castling::none();
    assert!(!none.kingside);
    assert!(!none.queenside);
    let both = Castling::both();
    assert!(both.kingside);
    assert!(both.queenside);
}

#[test]
fn test_move_rule_constructors() {
    let normal = MoveRule::normal(1, 2);
    assert_eq!(MoveType::Normal, normal.move_type);
    assert_eq!(1, normal.x_offset);
    assert_eq!(2, normal.y_offset);
    let los = MoveRule::line_of_sight(-1, 0);
    assert_eq!(MoveType::LineOfSight, los.move_type);
    let single = MoveRule::pawn_single_move(1);
    assert_eq!(MoveType::PawnSingleMove, single.move_type);
    assert_eq!(0, single.x_offset);
    let double = MoveRule::pawn_double_move(-2);
    assert_eq!(MoveType::PawnDoubleMove, double.move_type);
    assert_eq!(-2, double.y_offset);
    let capture = MoveRule::pawn_capture(-1, 1);
    assert_eq!(MoveType::PawnCapture, capture.move_type);
    let castle = MoveRule::castling(2);
    assert_eq!(MoveType::Castling, castle.move_type);
    assert_eq!(0, castle.y_offset);
    let custom = MoveRule::new(MoveType::Normal, 3, -3);
    assert_eq!(3, custom.x_offset);
    assert_eq!(-3, custom.y_offset);
}

#[test]
fn test_piece_move_rule_tables() {
    let pawn = Piece::new(PieceType::Pawn, Color::White, Square { x: 0, y: 1 });
    assert_eq!(4, pawn.move_rules().len());
    let rook = Piece::new(PieceType::Rook, Color::White, Square { x: 0, y: 0 });
    assert_eq!(4, rook.move_rules().len());
    let knight = Piece::new(PieceType::Knight, Color::Black, Square { x: 1, y: 7 });
    assert_eq!(8, knight.move_rules().len());
    let bishop = Piece::new(PieceType::Bishop, Color::Black, Square { x: 2, y: 7 });
    assert_eq!(4, bishop.move_rules().len());
    let queen = Piece::new(PieceType::Queen, Color::White, Square { x: 3, y: 0 });
    assert_eq!(8, queen.move_rules().len());
    let king = Piece::new(PieceType::King, Color::White, Square { x: 4, y: 0 });
    assert_eq!(11, king.move_rules().len());
}

#[test]
fn test_piece_move_count_increment() {
    let mut piece = Piece::new(PieceType::Rook, Color::Black, Square { x: 0, y: 7 });
    assert!(!piece.has_moved());
    piece.increment_move_count();
    assert!(piece.has_moved());
    assert_eq!(1, piece.move_count());
    *piece.piece_type_mut() = PieceType::Queen;
    assert_eq!(PieceType::Queen, piece.piece_type());
}
