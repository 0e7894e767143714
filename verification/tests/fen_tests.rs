use chess_state_machine::board::Board;
use chess_state_machine::board::MoveResult;
use chess_state_machine::fen::FromFen;
use chess_state_machine::fen::IntoFen;
use chess_state_machine::square::Square;

#[test]
fn test_board_into_fen() {
    let mut board = Board::from_fen("rnbqkbnr/pppppppp/8/8/8/8/PPPPPPPP/RNBQKBNR w KQkq - 0 1");

    assert_eq!(
        "rnbqkbnr/pppppppp/8/8/8/8/PPPPPPPP/RNBQKBNR w KQkq - 0 1",
        board.into_fen()
    );

    assert_eq!(
        MoveResult::Accepted,
        board.play_move(
            Square::try_from("e2").unwrap(),
            Square::try_from("e4").unwrap(),
        )
    );

    assert_eq!(
        "rnbqkbnr/pppppppp/8/8/4P3/8/PPPP1PPP/RNBQKBNR b KQkq e3 0 1",
        board.into_fen()
    );

    assert_eq!(
        MoveResult::Accepted,
        board.play_move(
            Square::try_from("c7").unwrap(),
            Square::try_from("c5").unwrap(),
        )
    );

    assert_eq!(
        "rnbqkbnr/pp1ppppp/8/2p5/4P3/8/PPPP1PPP/RNBQKBNR w KQkq c6 0 2",
        board.into_fen()
    );

    assert_eq!(
        MoveResult::Accepted,
        board.play_move(
            Square::try_from("g1").unwrap(),
            Square::try_from("f3").unwrap(),
        )
    );

    assert_eq!(
        "rnbqkbnr/pp1ppppp/8/2p5/4P3/5N2/PPPP1PPP/RNBQKB1R b KQkq - 1 2",
        board.into_fen()
    );

    // Castling

    board = Board::from_fen("rnbqkbnr/5ppp/8/ppppp3/2PP4/N2QB3/PP2PPPP/R3KBNR w KQkq e6 0 6");

    assert_eq!(
        MoveResult::Accepted,
        board.play_move(
            Square::try_from("e1").unwrap(),
            Square::try_from("c1").unwrap(),
        )
    );

    assert_eq!(
        "rnbqkbnr/5ppp/8/ppppp3/2PP4/N2QB3/PP2PPPP/2KR1BNR b kq - 1 6",
        board.into_fen()
    );

    // Black en-passant

    board = Board::from_fen("rnbqkbnr/5ppp/8/2ppp2P/ppPP4/N2QB3/PP2PPP1/2KR1BNR b kq - 0 8");

    assert_eq!(
        MoveResult::Accepted,
        board.play_move(
            Square::try_from("g7").unwrap(),
            Square::try_from("g5").unwrap(),
        )
    );

    assert_eq!(
        "rnbqkbnr/5p1p/8/2ppp1pP/ppPP4/N2QB3/PP2PPP1/2KR1BNR w kq g6 0 9",
        board.into_fen()
    );

    assert_eq!(
        MoveResult::Accepted,
        board.play_move(
            Square::try_from("h5").unwrap(),
            Square::try_from("g6").unwrap(),
        )
    );

    assert_eq!(
        "rnbqkbnr/5p1p/6P1/2ppp3/ppPP4/N2QB3/PP2PPP1/2KR1BNR b kq - 0 9",
        board.into_fen()
    );

    // White en-passant
    board =
        Board::from_fen("rn1q1b1r/1Q1bk2p/3N1nP1/2pp1p2/pPPPp3/4B3/P3PPP1/2KR1BNR b - b3 0 15");

    assert_eq!(
        MoveResult::Accepted,
        board.play_move(
            Square::try_from("a4").unwrap(),
            Square::try_from("b3").unwrap(),
        )
    );

    assert_eq!(
        "rn1q1b1r/1Q1bk2p/3N1nP1/2pp1p2/2PPp3/1p2B3/P3PPP1/2KR1BNR w - - 0 16",
        board.into_fen()
    );
}

#[test]
fn test_start_position_move_yields_expected_fen() {
    let mut board = Board::from_fen("rnbqkbnr/pppppppp/8/8/8/8/PPPPPPPP/RNBQKBNR w KQkq - 0 1");
    let result = board.play_move(
        Square::try_from("e2").unwrap(),
        Square::try_from("e4").unwrap(),
    );
    assert_eq!(MoveResult::Accepted, result);
    assert_eq!(
        "rnbqkbnr/pppppppp/8/8/4P3/8/PPPP1PPP/RNBQKBNR b KQkq e3 0 1",
        board.into_fen()
    );
}

#[test]
fn test_second_move_sets_en_passant_and_full_move() {
    let mut board = Board::from_fen("rnbqkbnr/pppppppp/8/8/4P3/8/PPPP1PPP/RNBQKBNR b KQkq e3 0 1");
    let result = board.play_move(
        Square::try_from("c7").unwrap(),
        Square::try_from("c5").unwrap(),
    );
    assert_eq!(MoveResult::Accepted, result);
    assert_eq!(
        Some(Square::try_from("c6").unwrap()),
        board.en_passant_target()
    );
    assert_eq!(0, board.half_moves());
    assert_eq!(2, board.full_moves());
}

#[test]
fn test_queenside_castle_moves_rook_and_clears_rights() {
    let mut board =
        Board::from_fen("rnbqkbnr/5ppp/8/ppppp3/2PP4/N2QB3/PP2PPPP/R3KBNR w KQkq e6 0 6");
    let result = board.play_move(
        Square::try_from("e1").unwrap(),
        Square::try_from("c1").unwrap(),
    );
    assert_eq!(MoveResult::Accepted, result);
    let king = board.piece(2, 0).expect("king on c1");
    assert_eq!(
        chess_state_machine::piece::PieceType::King,
        king.piece_type()
    );
    let rook = board.piece(3, 0).expect("rook on d1");
    assert_eq!(
        chess_state_machine::piece::PieceType::Rook,
        rook.piece_type()
    );
    assert!(board.piece(0, 0).is_none());
    assert!(board.piece(4, 0).is_none());
    assert!(!board.white_castling().kingside);
    assert!(!board.white_castling().queenside);
    assert_eq!(1, board.half_moves());
}

#[test]
fn test_en_passant_capture_removes_pawn() {
    let mut board =
        Board::from_fen("rnbqkbnr/5ppp/8/2ppp2P/ppPP4/N2QB3/PP2PPP1/2KR1BNR b kq - 0 8");
    assert_eq!(
        MoveResult::Accepted,
        board.play_move(
            Square::try_from("g7").unwrap(),
            Square::try_from("g5").unwrap(),
        )
    );
    assert_eq!(
        MoveResult::Accepted,
        board.play_move(
            Square::try_from("h5").unwrap(),
            Square::try_from("g6").unwrap(),
        )
    );
    // The black pawn that double-stepped to g5 is gone.
    assert!(board.piece(6, 4).is_none());
    assert_eq!(0, board.half_moves());
}

#[test]
fn test_invalid_move_leaves_fen_unchanged() {
    let mut board = Board::from_fen("rnbqkbnr/pppppppp/8/8/8/8/PPPPPPPP/RNBQKBNR w KQkq - 0 1");
    let before = board.into_fen();
    let result = board.play_move(
        Square::try_from("e2").unwrap(),
        Square::try_from("e5").unwrap(),
    );
    assert_eq!(MoveResult::Invalid, result);
    assert_eq!(before, board.into_fen());
}

#[test]
fn test_invalid_move_from_empty_square() {
    let mut board = Board::from_fen("rnbqkbnr/pppppppp/8/8/8/8/PPPPPPPP/RNBQKBNR w KQkq - 0 1");
    let result = board.play_move(
        Square::try_from("e4").unwrap(),
        Square::try_from("e5").unwrap(),
    );
    assert_eq!(MoveResult::Invalid, result);
}

#[test]
fn test_fen_round_trip_is_stable() {
    let fens = [
        "rnbqkbnr/pppppppp/8/8/8/8/PPPPPPPP/RNBQKBNR w KQkq - 0 1",
        "rnbqkbnr/5ppp/8/ppppp3/2PP4/N2QB3/PP2PPPP/R3KBNR w KQkq e6 0 6",
        "rn1q1b1r/1Q1bk2p/3N1nP1/2pp1p2/2PPp3/1p2B3/P3PPP1/2KR1BNR w - - 0 16",
        "8/8/8/8/8/8/8/8 w - - 123 456",
    ];
    for fen in fens {
        let board = Board::from_fen(fen);
        assert_eq!(fen, board.into_fen());
    }
}
