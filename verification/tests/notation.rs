use lib::bitops::{bit_cnt, first_one};
use lib::displaymove::{get_san_ambig, get_san_disambig};
use lib::internalxboard::{alfa_notacion, esta_en_tablero, num_notacion};
use lib::legalmoves::LegalMove;
use lib::movim::{mov_bishopmoves, mov_queenmoves, mov_rookmoves, Movim};
use lib::sanparse::parse_san;
use lib::tables::data_init;
use lib::wchess::{get_fen, move_san, new_board, set_fen};

fn mv(from: u32, to: u32, piece: u32, capt: u32, prom: u32) -> Movim {
    let mut m = Movim::new();
    m.set_from(from);
    m.set_to_sq(to);
    m.set_piec(piece);
    m.set_capt(capt);
    m.set_prom(prom);
    m
}

#[test]
fn movim_fields() {
    let m = mv(12, 28, 1, 0, 0);
    assert_eq!(m.move_int, 12 | (28 << 6) | (1 << 12));
    assert_eq!(m.get_from(), 12);
    assert_eq!(m.get_to_sq(), 28);
    assert_eq!(m.get_piec(), 1);
    assert!(m.is_whitemove());
    assert!(!m.is_blackmove());
    assert!(m.is_pawn_move());
    assert!(m.is_pawn_doublemove());
    assert!(!m.is_capture());
    assert_eq!(m.get_uci(), "e2e4");
    let mut c = m;
    c.clear();
    assert_eq!(c.move_int, 0);
    let k = Movim { move_int: lib::globs::BLACK_OO_CASTL };
    assert!(k.is_castle());
    assert!(k.is_castle_oo());
    assert!(!k.is_castle_ooo());
    assert!(k.is_kingmove());
    assert!(k.is_blackmove());
    assert_eq!(k.get_uci(), "e8g8");
    let p = mv(52, 61, 1, 14, 7);
    assert!(p.is_promotion());
    assert!(p.is_capture());
    assert!(p.is_rookcaptured());
    assert_eq!(p.get_uci(), "e7f8q");
    let e = mv(36, 43, 1, 9, 1);
    assert!(e.is_enpassant());
    assert!(!e.is_promotion());
}

#[test]
fn san_without_disambiguation() {
    assert_eq!(get_san_ambig(mv(12, 28, 1, 0, 0)), "e4");
    assert_eq!(get_san_ambig(mv(6, 21, 3, 0, 0)), "Nf3");
    assert_eq!(get_san_ambig(mv(28, 35, 1, 9, 0)), "exd5");
    assert_eq!(get_san_ambig(mv(27, 35, 7, 13, 0)), "Qxd5");
    assert_eq!(get_san_ambig(mv(52, 61, 1, 14, 7)), "exf8=Q");
    assert_eq!(get_san_ambig(mv(52, 60, 1, 0, 3)), "e8=N");
    assert_eq!(get_san_ambig(Movim { move_int: lib::globs::WHITE_OO_CASTL }), "O-O");
    assert_eq!(get_san_ambig(Movim { move_int: lib::globs::WHITE_OOO_CASTL }), "O-O-O");
}

#[test]
fn san_with_disambiguation() {
    let mut b = new_board();
    // knights on b1 and f3 can both go to d2
    set_fen(&mut b, "4k3/8/8/8/8/5N2/8/1N2K3 w - - 0 1");
    assert_eq!(get_san_disambig(&mut b, mv(1, 11, 3, 0, 0)), "Nbd2");
    assert_eq!(get_san_disambig(&mut b, mv(21, 11, 3, 0, 0)), "Nfd2");
    // rooks on a1 and a5 share the file
    set_fen(&mut b, "4k3/8/8/R7/8/8/8/R3K3 w - - 0 1");
    assert_eq!(get_san_disambig(&mut b, mv(0, 16, 6, 0, 0)), "R1a3");
    // an illegal move
    assert_eq!(get_san_disambig(&mut b, mv(0, 63, 6, 0, 0)), "None");
    // check
    assert_eq!(get_san_disambig(&mut b, mv(32, 39, 6, 0, 0)), "Rh5");
    assert_eq!(get_san_disambig(&mut b, mv(32, 36, 6, 0, 0)), "Re5+");
    // the position is unchanged
    assert_eq!(get_fen(&mut b), "4k3/8/8/R7/8/8/8/R3K3 w - - 0 1");
}

#[test]
fn san_moves_are_parsed() {
    let mut b = new_board();
    set_fen(&mut b, "4k3/8/8/R7/8/8/8/R3K3 w - - 0 1");
    let m = move_san(&mut b, "R1a3");
    assert_eq!(m.uci, "a1a3");
    assert_eq!(m.san, "R1a3");
    let mut b = new_board();
    set_fen(&mut b, "4k3/8/8/8/8/5N2/8/1N2K3 w - - 0 1");
    let m = move_san(&mut b, "Nfd2");
    assert_eq!(m.uci, "f3d2");
    let mut b = new_board();
    set_fen(&mut b, "4k3/8/8/8/8/5N2/8/1N2K3 w - - 0 1");
    let m = move_san(&mut b, "Nf3d2");
    assert_eq!(m.uci, "f3d2");
    let mut b = new_board();
    set_fen(&mut b, "rnbqkbnr/ppp1pppp/8/3p4/4P3/8/PPPP1PPP/RNBQKBNR w KQkq d6 0 2");
    let m = move_san(&mut b, "exd5");
    assert_eq!(m.uci, "e4d5");
    // no such move: an empty move, the position unchanged
    let mut b = new_board();
    let m = move_san(&mut b, "Qh5");
    assert_eq!(m.movim.move_int, 0);
    assert_eq!(m.san, "");
    let m = move_san(&mut b, "O-O");
    assert_eq!(m.movim.move_int, 0);
}

#[test]
fn san_castling_text() {
    let mut b = new_board();
    set_fen(&mut b, "r3k2r/8/8/8/8/8/8/R3K2R b KQkq - 0 1");
    let m = move_san(&mut b, "O-O-O+");
    assert_eq!(m.uci, "e8c8");
    assert_eq!(m.san, "O-O-O+");
}

#[test]
fn san_grammar_layouts() {
    let s: Vec<char> = "Nf3xd4=Q+".chars().collect();
    let l = parse_san(&s).unwrap();
    assert_eq!((l.piece, l.file, l.rank, l.capture, l.promo, l.mark), (1, 1, 1, 1, 2, 1));
    let s: Vec<char> = "e4".chars().collect();
    let l = parse_san(&s).unwrap();
    assert_eq!((l.piece, l.file, l.rank, l.capture, l.promo, l.mark), (0, 0, 0, 0, 0, 0));
    // the optional file is taken first: "b3" is read as the destination
    let s: Vec<char> = "Rb3".chars().collect();
    let l = parse_san(&s).unwrap();
    assert_eq!((l.piece, l.file, l.rank), (1, 0, 0));
    let s: Vec<char> = "Xe4".chars().collect();
    assert!(parse_san(&s).is_none());
    let s: Vec<char> = "".chars().collect();
    assert!(parse_san(&s).is_none());
}

#[test]
fn bit_operations() {
    assert_eq!(bit_cnt(0), 0);
    assert_eq!(bit_cnt(u64::MAX), 64);
    assert_eq!(bit_cnt(0b1011_0000), 3);
    assert_eq!(first_one(1), 0);
    assert_eq!(first_one(0b1011_0000), 4);
    assert_eq!(first_one(1 << 63), 63);
}

#[test]
fn sliding_attacks() {
    let t = data_init();
    // a rook on a1 of an empty board reaches the a-file and the first rank
    let r = mov_rookmoves(0, u64::MAX, 1, &t);
    assert_eq!(bit_cnt(r), 14);
    let bi = mov_bishopmoves(0, u64::MAX, 1, &t);
    assert_eq!(bi, 0x8040_2010_0804_0200);
    let q = mov_queenmoves(27, u64::MAX, 1 << 27, &t);
    assert_eq!(bit_cnt(q), 27);
    // a blocker on a4 stops the file there
    let r = mov_rookmoves(0, u64::MAX, 1 | (1 << 24), &t);
    assert_eq!(r & 0x0101_0101_0101_0100, (1 << 8) | (1 << 16) | (1 << 24));
}

#[test]
fn board_coordinates() {
    assert_eq!(alfa_notacion((0, 0)), "a1");
    assert_eq!(alfa_notacion((3, 4)), "e4");
    assert_eq!(alfa_notacion((8, 0)), "None");
    assert!(esta_en_tablero((7, 7)));
    assert!(!esta_en_tablero((0, 8)));
    assert_eq!(num_notacion("e4"), (3, 4));
    assert_eq!(num_notacion("h8"), (7, 7));
}

#[test]
fn legal_move_setters() {
    let mut l = LegalMove::new();
    assert_eq!(l.movim.move_int, 0);
    l.set_movim(mv(12, 28, 1, 0, 0));
    l.set_uci("e2e4".to_string());
    l.set_san("e4".to_string());
    assert_eq!(l.movim.get_to_sq(), 28);
    assert_eq!(l.uci, "e2e4");
    assert_eq!(l.san, "e4");
}
