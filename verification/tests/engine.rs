use lib::board::Board;
use lib::perft::mini_max;
use lib::wchess::{draw_board, game_ended, get_board_array, get_fen, get_piece_at_alphasquare,
    get_truncated_fen, move_san, move_uci, new_board, set_fen, undo_move};

const KIWIPETE: &str = "r3k2r/p1ppqpb1/bn2pnp1/3PN3/1p2P3/2N2Q1p/PPPBBPPP/R3K2R w KQkq - 0 1";

#[test]
fn initial_position_fen() {
    let mut b = new_board();
    assert_eq!(
        get_fen(&mut b),
        "rnbqkbnr/pppppppp/8/8/8/8/PPPPPPPP/RNBQKBNR w KQkq - 0 0"
    );
    assert_eq!(get_truncated_fen(&mut b), "rnbqkbnr/pppppppp/8/8/8/8/PPPPPPPP/RNBQKBNR");
}

#[test]
fn fen_round_trip() {
    let mut b = new_board();
    set_fen(&mut b, KIWIPETE);
    assert_eq!(get_fen(&mut b), KIWIPETE);
    let ep = "rnbqkbnr/ppp1p1pp/8/3pPp2/8/8/PPPP1PPP/RNBQKBNR w KQkq f6 0 3";
    set_fen(&mut b, ep);
    assert_eq!(get_fen(&mut b), ep);
    let none = "8/8/8/8/8/8/8/K6k b - - 12 40";
    set_fen(&mut b, none);
    assert_eq!(get_fen(&mut b), none);
}

#[test]
fn perft_initial_position() {
    let mut b = new_board();
    assert_eq!(mini_max(&mut b, 0, 0), 1);
    assert_eq!(mini_max(&mut b, 1, 0), 20);
    assert_eq!(mini_max(&mut b, 2, 0), 400);
    assert_eq!(mini_max(&mut b, 3, 0), 8902);
    // the position is given back
    assert_eq!(get_fen(&mut b), "rnbqkbnr/pppppppp/8/8/8/8/PPPPPPPP/RNBQKBNR w KQkq - 0 0");
}

#[test]
fn perft_kiwipete() {
    let mut b = new_board();
    set_fen(&mut b, KIWIPETE);
    assert_eq!(mini_max(&mut b, 1, 0), 48);
    assert_eq!(mini_max(&mut b, 2, 0), 2039);
}

#[test]
fn perft_endgame_with_en_passant_and_promotions() {
    let mut b = new_board();
    set_fen(&mut b, "8/2p5/3p4/KP5r/1R3p1k/8/4P1P1/8 w - - 0 1");
    assert_eq!(mini_max(&mut b, 1, 0), 14);
    assert_eq!(mini_max(&mut b, 2, 0), 191);
    assert_eq!(mini_max(&mut b, 3, 0), 2812);
    set_fen(&mut b, "r3k2r/Pppp1ppp/1b3nbN/nP6/BBP1P3/q4N2/Pp1P2PP/R2Q1RK1 w kq - 0 1");
    assert_eq!(mini_max(&mut b, 1, 0), 6);
    assert_eq!(mini_max(&mut b, 2, 0), 264);
}

#[test]
fn legal_moves_of_initial_position() {
    let mut b = new_board();
    let legals = b.get_legals();
    assert_eq!(legals.len(), 20);
    let ucis: Vec<String> = legals.iter().map(|l| l.uci.clone()).collect();
    // pawns first, from a2 up; then knights
    assert_eq!(ucis[0], "a2a3");
    assert_eq!(ucis[1], "a2a4");
    assert_eq!(ucis[16], "b1a3");
    assert_eq!(ucis[19], "g1h3");
    assert!(legals.iter().all(|l| l.san.is_empty()));
}

#[test]
fn uci_move_plays_and_gives_san() {
    let mut b = new_board();
    let m = move_uci(&mut b, "e2e4");
    assert_eq!(m.uci, "e2e4");
    assert_eq!(m.san, "e4");
    assert_eq!(
        get_fen(&mut b),
        "rnbqkbnr/pppppppp/8/8/4P3/8/PPPP1PPP/RNBQKBNR b KQkq e3 0 0"
    );
    let m = move_uci(&mut b, "g8f6");
    assert_eq!(m.san, "Nf6");
    assert_eq!(
        get_fen(&mut b),
        "rnbqkb1r/pppppppp/5n2/8/4P3/8/PPPP1PPP/RNBQKBNR w KQkq - 1 1"
    );
}

#[test]
fn illegal_uci_move_is_refused() {
    let mut b = new_board();
    let m = move_uci(&mut b, "e2e5");
    assert_eq!(m.movim.move_int, 0);
    assert_eq!(m.uci, "");
    assert_eq!(m.san, "");
    assert_eq!(get_fen(&mut b), "rnbqkbnr/pppppppp/8/8/8/8/PPPPPPPP/RNBQKBNR w KQkq - 0 0");
}

#[test]
fn undo_restores_position() {
    let mut b = new_board();
    set_fen(&mut b, KIWIPETE);
    for uci in ["e1g1", "e1c1", "d5e6", "a2a4", "e2a6", "g2h3"] {
        let m = move_uci(&mut b, uci);
        assert_ne!(m.movim.move_int, 0, "{}", uci);
        undo_move(&mut b, m);
        assert_eq!(get_fen(&mut b), KIWIPETE);
    }
}

#[test]
fn scholars_mate() {
    let mut b = new_board();
    for san in ["e4", "e5", "Bc4", "Nc6", "Qh5", "Nf6"] {
        let m = move_san(&mut b, san);
        assert_eq!(m.san, san);
    }
    assert!(!game_ended(&mut b));
    let m = move_uci(&mut b, "h5f7");
    assert_eq!(m.san, "Qxf7#");
    assert!(game_ended(&mut b));
}

#[test]
fn game_end_rules() {
    let mut b = new_board();
    // king against king
    set_fen(&mut b, "8/8/8/8/8/8/8/K6k w - - 0 1");
    assert!(game_ended(&mut b));
    // king and knight against king
    set_fen(&mut b, "8/8/8/8/8/8/8/KN5k w - - 0 1");
    assert!(game_ended(&mut b));
    // bishops all on one colour
    set_fen(&mut b, "8/8/8/8/8/8/8/KB3b1k w - - 0 1");
    assert!(game_ended(&mut b));
    // bishops on both colours
    set_fen(&mut b, "8/8/8/8/8/8/8/KB2b2k w - - 0 1");
    assert!(!game_ended(&mut b));
    // a rook is enough
    set_fen(&mut b, "8/8/8/8/8/8/R7/K6k w - - 0 1");
    assert!(!game_ended(&mut b));
    // fifty-move rule
    set_fen(&mut b, "8/8/8/8/8/8/R7/K6k w - - 100 80");
    assert!(game_ended(&mut b));
    // stalemate
    set_fen(&mut b, "7k/5Q2/6K1/8/8/8/8/8 b - - 0 1");
    assert!(game_ended(&mut b));
    // the side that just moved left its king in check
    set_fen(&mut b, "8/8/8/8/8/8/8/KR5k w - - 0 1");
    assert!(game_ended(&mut b));
}

#[test]
fn castling_and_en_passant_are_generated() {
    let mut b = new_board();
    set_fen(&mut b, "r3k2r/8/8/8/8/8/8/R3K2R w KQkq - 0 1");
    let ucis: Vec<String> = b.get_legals().iter().map(|l| l.uci.clone()).collect();
    assert!(ucis.contains(&"e1g1".to_string()));
    assert!(ucis.contains(&"e1c1".to_string()));
    let m = move_uci(&mut b, "e1c1");
    assert_eq!(m.san, "O-O-O");
    assert_eq!(get_fen(&mut b), "r3k2r/8/8/8/8/8/8/2KR3R b kq - 1 1");
    set_fen(&mut b, "rnbqkbnr/ppp1p1pp/8/3pPp2/8/8/PPPP1PPP/RNBQKBNR w KQkq f6 0 3");
    let m = move_uci(&mut b, "e5f6");
    assert_eq!(m.san, "exf6 e.p.");
    assert_eq!(get_piece_at_alphasquare(&mut b, "f5"), "None");
    assert_eq!(get_piece_at_alphasquare(&mut b, "f6"), "P");
}

#[test]
fn castling_refused_through_check() {
    let mut b = new_board();
    set_fen(&mut b, "r3k2r/8/8/8/8/8/3r1r2/R3K2R w KQkq - 0 1");
    let ucis: Vec<String> = b.get_legals().iter().map(|l| l.uci.clone()).collect();
    assert!(!ucis.contains(&"e1g1".to_string()));
    assert!(!ucis.contains(&"e1c1".to_string()));
}

#[test]
fn promotions_in_order() {
    let mut b = new_board();
    set_fen(&mut b, "8/P6k/8/8/8/8/8/K7 w - - 0 1");
    let ucis: Vec<String> = b.get_legals().iter().map(|l| l.uci.clone()).collect();
    assert_eq!(ucis[0], "a7a8q");
    assert_eq!(ucis[1], "a7a8r");
    assert_eq!(ucis[2], "a7a8b");
    assert_eq!(ucis[3], "a7a8n");
    let m = move_san(&mut b, "a8=Q+");
    assert_eq!(m.uci, "a7a8q");
}

#[test]
fn pieces_by_square() {
    let mut b = new_board();
    assert_eq!(get_piece_at_alphasquare(&mut b, "e1"), "K");
    assert_eq!(get_piece_at_alphasquare(&mut b, "d8"), "q");
    assert_eq!(get_piece_at_alphasquare(&mut b, "e4"), "None");
    assert_eq!(get_piece_at_alphasquare(&mut b, "z9"), "None");
    let a = get_board_array(&mut b);
    assert_eq!(a[4], 2);
    assert_eq!(a[60], 10);
    assert_eq!(a[35], 0);
}

#[test]
fn board_picture() {
    let mut b = new_board();
    let text = draw_board(&mut b);
    let lines: Vec<&str> = text.lines().collect();
    assert_eq!(lines.len(), 18);
    assert_eq!(lines[0], "    +---+---+---+---+---+---+---+---+");
    assert_eq!(lines[1], "  8 | R*| N*| B*| Q*| K*| B*| N*| R*|");
    assert_eq!(lines[3], "  7 | P*| P*| P*| P*| P*| P*| P*| P*|");
    assert_eq!(lines[5], "  6 |   |   |   |   |   |   |   |   |");
    assert_eq!(lines[15], "  1 | R | N | B | Q | K | B | N | R |");
    assert_eq!(lines[17], "      a   b   c   d   e   f   g   h");
    b.view_rotated = true;
    let text = draw_board(&mut b);
    let lines: Vec<&str> = text.lines().collect();
    assert_eq!(lines[0], "      h   g   f   e   d   c   b   a");
    assert_eq!(lines[2], "    | R | N | B | K | Q | B | N | R |  1");
}

#[test]
fn attacks_and_checks() {
    let mut b = Board::new();
    assert!(!b.is_own_king_attacked());
    assert!(!b.is_other_king_attacked());
    set_fen(&mut b, "4k3/8/8/8/8/8/8/4R1K1 b - - 0 1");
    assert!(b.is_own_king_attacked());
    set_fen(&mut b, "4k3/8/8/8/8/8/8/4R1K1 w - - 0 1");
    assert!(b.is_other_king_attacked());
}

#[test]
fn queenside_castling_is_written_long() {
    let mut b = new_board();
    set_fen(&mut b, "r3k2r/8/8/8/8/8/8/R3K2R w KQkq - 0 1");
    let long = lib::displaymove::get_san_disambig(&mut b, lib::movim::Movim { move_int: lib::globs::WHITE_OOO_CASTL });
    assert_eq!(long, "O-O-O");
    let short = lib::displaymove::get_san_disambig(&mut b, lib::movim::Movim { move_int: lib::globs::WHITE_OO_CASTL });
    assert_eq!(short, "O-O");
    let m = move_uci(&mut b, "e1g1");
    assert_eq!(m.san, "O-O");
}

#[test]
fn move_generation_keeps_the_rest_of_the_buffer() {
    let mut b = new_board();
    let size = b.move_buffer.len();
    let end = b.movegen(0);
    assert_eq!(end, 20);
    assert_eq!(b.move_buffer.len(), size);
    let legals = b.get_legals();
    assert_eq!(legals.len(), 20);
    assert_eq!(b.move_buffer.len(), size);
}

#[test]
fn set_fen_reads_every_field() {
    let mut b = new_board();
    set_fen(&mut b, "rnbqkbnr/ppp1p1pp/8/3pPp2/8/8/PPPP1PPP/RNBQKBNR b Kq f6 7 31");
    assert_eq!(b.next_move, 1);
    assert_eq!(b.castle_white, 1);
    assert_eq!(b.castle_black, 2);
    assert_eq!(b.ep_square, 45);
    assert_eq!(b.fifty_move, 7);
    assert_eq!(b.full_moves, 31);
}

#[test]
fn a_played_move_can_be_taken_back() {
    let mut b = new_board();
    let start = get_fen(&mut b);
    let m = move_uci(&mut b, "e2e4");
    assert_eq!(m.san, "e4");
    assert_eq!(get_fen(&mut b), "rnbqkbnr/pppppppp/8/8/4P3/8/PPPP1PPP/RNBQKBNR b KQkq e3 0 0");
    undo_move(&mut b, m);
    assert_eq!(get_fen(&mut b), start);
    let n = move_san(&mut b, "Nf3");
    assert_eq!(n.uci, "g1f3");
    undo_move(&mut b, n);
    assert_eq!(get_fen(&mut b), start);
    let bad = move_san(&mut b, "Nf5");
    assert_eq!(bad.movim.move_int, 0);
    assert_eq!(bad.uci, "");
    assert_eq!(bad.san, "");
}

#[test]
fn promotion_capture_takes_the_written_file() {
    let mut b = new_board();
    set_fen(&mut b, "3r3k/2P1P3/8/8/8/8/8/4K3 w - - 0 1");
    let start = get_fen(&mut b);
    let m = move_san(&mut b, "exd8=Q");
    assert_eq!(m.uci, "e7d8q");
    assert_eq!(get_piece_at_alphasquare(&mut b, "e7"), "None");
    assert_eq!(get_piece_at_alphasquare(&mut b, "c7"), "P");
    assert_eq!(get_piece_at_alphasquare(&mut b, "d8"), "Q");
    undo_move(&mut b, m);
    assert_eq!(get_fen(&mut b), start);
    let m = move_san(&mut b, "cxd8=N+");
    assert_eq!(m.uci, "c7d8n");
    undo_move(&mut b, m);
    let m = move_san(&mut b, "exd8Q");
    assert_eq!(m.uci, "e7d8q");
    undo_move(&mut b, m);
    // without a from-file the first promotion to the square is taken
    let m = move_san(&mut b, "d8=Q");
    assert_eq!(m.uci, "c7d8q");
    undo_move(&mut b, m);
    // no pawn on the written file
    let m = move_san(&mut b, "fxd8=Q");
    assert_eq!(m.movim.move_int, 0);
    assert_eq!(get_fen(&mut b), start);
}
