use lib::bitops::{first_one, last_one};
use lib::fensearch;
use lib::buttonsboard::{btn_first_node, btn_last_node, btn_next_node, btn_prev_node};
use lib::nagcomments::mod_comment;
use lib::bookreader::init_search;
use lib::getbook::{Move, PolyglotEntry};
use lib::toolbarengine::{read_left_output, read_left_output_no_moves, write_pretty};
use lib::fensearch::{create_board, create_exact_fen, create_pieces, DataPosition, PositionType};
use lib::internalxboard::procesa_notacion;
use lib::movim::{mov_black_oo_castle, mov_black_ooo_castle, mov_white_oo_castle, mov_white_ooo_castle};
use lib::pgnglobs::{ListNodes, Node};
use lib::pgnread::pgn_moves_to_nodes;
use lib::wchess::{get_board_array, get_fen, graphical_board, new_board, set_fen};
use lib::xboard::{promote_variation, promote_variation_handler, strip_variation, strip_variation_handler,
    xb_board_move, xb_make_move, MoveRefusal};

fn s(t: &str) -> String {
    t.to_string()
}

fn node_of<'a>(l: &'a ListNodes, idx: &str) -> &'a Node {
    l.nodes.iter().find(|(k, _)| k == idx).map(|(_, n)| n).unwrap()
}

fn has(l: &ListNodes, idx: &str) -> bool {
    l.nodes.iter().any(|(k, _)| k == idx)
}

#[test]
fn strip_a_variation_moves_the_next_one_up() {
    let l = pgn_moves_to_nodes(s("1. e4 ( 1. d4 ) ( 1. c4 ) 1... e5 *"), s("")).unwrap();
    let (n, idx) = strip_variation(&l, s("1z1n"), s("1z1n")).unwrap();
    assert_eq!(idx, "1z");
    assert_eq!(n.nodes.len(), 4);
    assert_eq!(node_of(&n, "1z").children, vec![s("2z"), s("1z1n")]);
    let c4 = node_of(&n, "1z1n");
    assert_eq!(c4.san, "c4");
    assert_eq!(c4.branch_level, 1);
    assert_eq!(c4.parent_indx, "1z");
    assert!(!has(&n, "1z2n"));
    assert_eq!(node_of(&n, "3z").san, "e5");
}

#[test]
fn strip_the_main_line_makes_the_variation_main() {
    let l = pgn_moves_to_nodes(s("1. e4 ( 1. d4 ) ( 1. c4 ) 1... e5 *"), s("")).unwrap();
    let (n, idx) = strip_variation(&l, s("2z"), s("2z")).unwrap();
    assert_eq!(idx, "1z");
    assert_eq!(n.nodes.len(), 3);
    let d4 = node_of(&n, "2z");
    assert_eq!(d4.san, "d4");
    assert_eq!(d4.branch_level, 0);
    let c4 = node_of(&n, "1z1n");
    assert_eq!(c4.san, "c4");
    assert_eq!(c4.branch_level, 1);
    assert!(!has(&n, "3z"));
    assert!(!has(&n, "1z2n"));
}

#[test]
fn strip_the_root_changes_nothing() {
    let l = pgn_moves_to_nodes(s("1. e4 e5 *"), s("")).unwrap();
    let (n, idx) = strip_variation(&l, s("1z"), s("2z")).unwrap();
    assert_eq!(idx, "2z");
    assert_eq!(n.nodes.len(), 3);
}

#[test]
fn strip_a_missing_node_is_refused() {
    let l = pgn_moves_to_nodes(s("1. e4 e5 *"), s("")).unwrap();
    assert!(strip_variation(&l, s("7z"), s("7z")).is_none());
}

#[test]
fn strip_handler_selects_the_parent() {
    let mut l = pgn_moves_to_nodes(s("1. e4 e5 2. Nf3 *"), s("")).unwrap();
    let mut active = s("3z");
    strip_variation_handler(&mut l, &mut active, s("3z"));
    assert_eq!(active, "2z");
    assert_eq!(l.nodes.len(), 2);
    assert!(node_of(&l, "2z").children.is_empty());
}

#[test]
fn strip_handler_keeps_a_lone_root() {
    let mut l = pgn_moves_to_nodes(s("1. e4 *"), s("")).unwrap();
    let mut active = s("2z");
    strip_variation_handler(&mut l, &mut active, s("2z"));
    assert_eq!(active, "2z");
    assert_eq!(l.nodes.len(), 2);
}

#[test]
fn promote_swaps_variation_and_main_line() {
    let l = pgn_moves_to_nodes(s("1. e4 ( 1. d4 d5 ) 1... e5 *"), s("")).unwrap();
    let (n, idx) = promote_variation(s("1z1n"), &l).unwrap();
    assert_eq!(idx, "2z");
    assert_eq!(n.nodes.len(), 5);
    let d4 = node_of(&n, "2z");
    assert_eq!(d4.san, "d4");
    assert_eq!(d4.branch_level, 0);
    assert_eq!(d4.children, vec![s("3z")]);
    let d5 = node_of(&n, "3z");
    assert_eq!(d5.san, "d5");
    assert_eq!(d5.branch_level, 0);
    assert_eq!(d5.parent_indx, "2z");
    let e4 = node_of(&n, "1z1n");
    assert_eq!(e4.san, "e4");
    assert_eq!(e4.branch_level, 1);
    assert_eq!(e4.children, vec![s("1z1n1z")]);
    let e5 = node_of(&n, "1z1n1z");
    assert_eq!(e5.san, "e5");
    assert_eq!(e5.branch_level, 1);
    assert_eq!(e5.parent_indx, "1z1n");
}

#[test]
fn promote_on_the_main_line_changes_nothing() {
    let l = pgn_moves_to_nodes(s("1. e4 e5 *"), s("")).unwrap();
    let (n, idx) = promote_variation(s("3z"), &l).unwrap();
    assert_eq!(idx, "3z");
    assert_eq!(n.nodes.len(), 3);
}

#[test]
fn promote_handler_selects_the_new_index() {
    let mut l = pgn_moves_to_nodes(s("1. e4 ( 1. d4 d5 ) 1... e5 *"), s("")).unwrap();
    let mut active = s("1z1n1z");
    promote_variation_handler(&mut l, &mut active);
    assert_eq!(active, "3z");
    assert_eq!(node_of(&l, "3z").san, "d5");
    let mut main = s("3z");
    promote_variation_handler(&mut l, &mut main);
    assert_eq!(main, "3z");
}

#[test]
fn board_move_to_a_known_position_selects_it() {
    let mut l = pgn_moves_to_nodes(s("1. e4 *"), s("")).unwrap();
    let fen = l.get_fen(s("2z"));
    let r = xb_make_move(&mut l, s("1z"), fen, s("e4")).unwrap();
    assert_eq!(r, (s("2z"), false));
    assert_eq!(l.nodes.len(), 2);
}

#[test]
fn board_move_adds_a_variation_or_a_next_move() {
    let mut l = pgn_moves_to_nodes(s("1. e4 *"), s("")).unwrap();
    let d4 = s("rnbqkbnr/pppppppp/8/8/3P4/8/PPP1PPPP/RNBQKBNR b KQkq d3 0 1");
    let r = xb_make_move(&mut l, s("1z"), d4.clone(), s("d4")).unwrap();
    assert_eq!(r, (s("1z1n"), true));
    let n = node_of(&l, "1z1n");
    assert_eq!(n.san, "d4");
    assert_eq!(n.fen, d4);
    assert_eq!(n.branch_level, 1);
    assert_eq!(n.parent_indx, "1z");
    assert_eq!(node_of(&l, "1z").children, vec![s("2z"), s("1z1n")]);
    let e5 = s("rnbqkbnr/pppp1ppp/8/4p3/4P3/8/PPPP1PPP/RNBQKBNR w KQkq e6 0 2");
    let r = xb_make_move(&mut l, s("2z"), e5, s("e5")).unwrap();
    assert_eq!(r, (s("3z"), true));
    assert_eq!(node_of(&l, "3z").branch_level, 0);
}

#[test]
fn most_significant_bit() {
    assert_eq!(last_one(1), 0);
    assert_eq!(last_one(0b1010), 3);
    assert_eq!(last_one(1u64 << 63), 63);
    assert_eq!(last_one(0xFFFF_0000_0000_0001), 63);
    assert_eq!(first_one(0b1010), 1);
}

#[test]
fn picture_of_the_initial_board() {
    let mut b = new_board();
    let g = graphical_board(&mut b);
    assert_eq!(g.len(), 64);
    assert_eq!(&g[0..8], &["r", "n", "b", "q", "k", "b", "n", "r"]);
    assert_eq!(g[8], "p");
    assert_eq!(g[20], "*");
    assert_eq!(g[52], "P");
    assert_eq!(g[60], "K");
}

#[test]
fn board_from_a_picture() {
    let mut b = new_board();
    set_fen(&mut b, "4k3/8/8/8/8/8/8/4K2R w K - 0 1");
    let g = graphical_board(&mut b);
    let t = procesa_notacion(g.clone(), false);
    assert_eq!(t, vec![(s("e8"), s("k")), (s("e1"), s("K")), (s("h1"), s("R"))]);
    let f = procesa_notacion(g, true);
    assert_eq!(f, vec![(s("a8"), s("R")), (s("d8"), s("K")), (s("d1"), s("k"))]);
}

#[test]
fn castling_moves() {
    assert_eq!(mov_white_oo_castle().move_int, 4 + (6 << 6) + (2 << 12) + (2 << 20));
    assert_eq!(mov_white_ooo_castle().move_int, 4 + (2 << 6) + (2 << 12) + (2 << 20));
    assert_eq!(mov_black_oo_castle().move_int, 60 + (62 << 6) + (10 << 12) + (10 << 20));
    assert_eq!(mov_black_ooo_castle().move_int, 60 + (58 << 6) + (10 << 12) + (10 << 20));
}

#[test]
fn board_move_from_the_start() {
    let start = "rnbqkbnr/pppppppp/8/8/8/8/PPPPPPPP/RNBQKBNR w KQkq - 0 1";
    let r = xb_board_move(start, "e2", "e4", "q").unwrap().unwrap();
    assert_eq!(r, (s("rnbqkbnr/pppppppp/8/8/4P3/8/PPPP1PPP/RNBQKBNR b KQkq e3 0 1"), s("e4")));
    let n = xb_board_move(start, "g1", "f3", "q").unwrap().unwrap();
    assert_eq!(n.1, "Nf3");
}

#[test]
fn board_move_refusals() {
    let start = "rnbqkbnr/pppppppp/8/8/8/8/PPPPPPPP/RNBQKBNR w KQkq - 0 1";
    assert_eq!(xb_board_move(start, "e3", "e4", "q").unwrap(), Err(MoveRefusal::NoPiece));
    assert_eq!(xb_board_move(start, "e2", "e5", "q").unwrap(), Err(MoveRefusal::BadMove));
    assert_eq!(xb_board_move(start, "e7", "e5", "q").unwrap(), Err(MoveRefusal::BadMove));
    assert!(xb_board_move("not a fen", "e2", "e4", "q").is_none());
}

#[test]
fn board_move_promotes_a_pawn() {
    let r = xb_board_move("k7/7P/8/8/8/8/8/K7 w - - 0 1", "h7", "h8", "q").unwrap().unwrap();
    assert!(r.0.starts_with("k6Q/8/8/8/8/8/8/K7 b - - 0 1"));
    assert!(r.1.starts_with("h8=Q"));
}

#[test]
fn editor_board_and_piece_box() {
    let b = create_board();
    assert_eq!(b.len(), 64);
    assert_eq!((b[0].sqcolor.as_str(), b[1].sqcolor.as_str(), b[8].sqcolor.as_str()), ("w", "b", "b"));
    assert_eq!(b[63].sqcolor, "w");
    assert!(b.iter().all(|q| q.img_name == "sq"));
    let p = create_pieces();
    let names: Vec<&str> = p.iter().map(|q| q.img_name.as_str()).collect();
    assert_eq!(names, vec!["sq", "wk", "wq", "wr", "wb", "wn", "wp", "sq", "sq", "bk", "bq", "br", "bb", "bn", "bp", "sq"]);
    assert_eq!(p[3].sqcolor, "w");
    assert_eq!(p[12].sqcolor, "b");
}

#[test]
fn editor_board_fen_round_trip() {
    let mut b = create_board();
    fensearch::set_fen(s("rnbqkbnr/pppppppp/8/8/4P3/8/PPPP1PPP/RNBQKBNR b KQkq e3 0 1"), &mut b);
    assert_eq!(b[0].img_name, "br");
    assert_eq!(b[36].img_name, "wp");
    assert_eq!(b[52].img_name, "sq");
    assert_eq!(b[1].sqcolor, "b");
    let mut fen = String::new();
    for r in 0..8 {
        fen.push_str(&create_exact_fen(&b, r * 8, r * 8 + 8));
    }
    assert_eq!(fen, "rnbqkbnr/pppppppp/8/8/4P3/8/PPPP1PPP/RNBQKBNR");
}

#[test]
fn editor_board_ignores_a_bad_fen() {
    let mut b = create_board();
    fensearch::set_fen(s("rnbqkbnr w KQkq - 0 1"), &mut b);
    assert!(b.iter().all(|q| q.img_name == "sq"));
    fensearch::set_fen(s("8/8 w - - 0"), &mut b);
    assert!(b.iter().all(|q| q.img_name == "sq"));
}

#[test]
fn search_requests() {
    let a = DataPosition::data_exact_fen(s("x"));
    assert_eq!(a.pos_type, PositionType::StandardFen);
    assert_eq!(a.search_str, "x");
    assert_eq!(DataPosition::data_material(s("m")).pos_type, PositionType::PiecesMaterial);
    assert_eq!(DataPosition::data_position_fen(s("p")).pos_type, PositionType::PiecesFen);
}

#[test]
fn engine_lines_split() {
    let lines = read_left_output_no_moves(b"id name X\nuciok\npartial");
    assert_eq!(lines, vec![s("id name X\n"), s("uciok\n")]);
    assert_eq!(read_left_output_no_moves(&[0x41, 0xE9, 10]), vec![s("A\u{e9}\n")]);
    assert!(read_left_output_no_moves(b"").is_empty());
}

const START: &str = "rnbqkbnr/pppppppp/8/8/8/8/PPPPPPPP/RNBQKBNR w KQkq - 0 1";

#[test]
fn engine_best_move() {
    assert_eq!(write_pretty(s("bestmove e2e4 ponder e7e5"), s(START)).unwrap(), "Mejor jugada:\t1. e4\n");
    let after = "rnbqkbnr/pppppppp/8/8/4P3/8/PPPP1PPP/RNBQKBNR b KQkq e3 0 1";
    assert_eq!(write_pretty(s("bestmove e7e5"), s(after)).unwrap(), "Mejor jugada:\t1... e5\n");
    assert_eq!(write_pretty(s("bestmove e2e5"), s(START)).unwrap(), "Mejor jugada:\t1... e2e5\n");
    assert!(write_pretty(s("bestmove"), s(START)).is_none());
    assert_eq!(write_pretty(s("readyok"), s(START)).unwrap(), "");
}

fn knight_dance(pairs: usize) -> (String, String) {
    let mut uci = String::new();
    let mut text = String::new();
    for j in 1..=pairs {
        let (wu, bu, w, b) = if j % 2 == 1 { ("g1f3", "g8f6", "Nf3", "Nf6") } else { ("f3g1", "f6g8", "Ng1", "Ng8") };
        uci.push_str(&format!(" {} {}", wu, bu));
        text.push_str(&format!(" {}. {}  {} ", j, w, b));
    }
    (uci, text)
}

#[test]
fn engine_analysis_line() {
    let (uci, moves) = knight_dance(9);
    let line = format!("info depth 10 score cp 35 nodes 100 pv{}", uci);
    let expected = format!("Depth: 10 \tEval.:\t  0.35 \tMoves.: {}\n", moves);
    assert_eq!(write_pretty(line, s(START)).unwrap(), expected);
    let line = format!("info depth 7 score cp -120 pv{}", uci);
    let expected = format!("Depth: 7 \tEval.:\t -1.20 \tMoves.: {}\n", moves);
    assert_eq!(write_pretty(line, s(START)).unwrap(), expected);
    let line = format!("info depth 5 score mate 3 pv{}", uci);
    let expected = format!("Depth: 5 \tMate:\t     3 \tMoves.: {}\n", moves);
    assert_eq!(write_pretty(line, s(START)).unwrap(), expected);
}

#[test]
fn engine_short_lines_are_not_shown() {
    assert_eq!(write_pretty(s("info depth 3 score cp 20 pv e2e4 e7e5"), s(START)).unwrap(), "");
    assert!(write_pretty(s("info depth 3 score cp x pv e2e4"), s(START)).is_none());
}

#[test]
fn engine_output_shows_best_move_and_stops() {
    let mut shown: Vec<String> = Vec::new();
    let r = read_left_output(&mut shown, b"info depth 1\r\nreadyok\n\nbestmove e2e4\ninfo depth 2\n", &s(START));
    assert_eq!(r, Some((true, 1)));
    assert_eq!(shown, vec![s("Mejor jugada:\t1. e4\n")]);
}

#[test]
fn engine_output_keeps_four_lines() {
    let (uci, _) = knight_dance(9);
    let mut data = String::new();
    for d in 1..=5 {
        data.push_str(&format!("info depth {} score cp 10 pv{}\n", d, uci));
    }
    data.push_str(&format!("info depth 6 score mate 2 pv{}\n", uci));
    let mut shown: Vec<String> = Vec::new();
    let r = read_left_output(&mut shown, data.as_bytes(), &s(START));
    assert_eq!(r, Some((false, 1)));
    assert_eq!(shown.len(), 4);
    assert!(shown[0].starts_with("Depth: 3 "));
    assert!(shown[3].starts_with("Depth: 6 \tMate:"));
}

#[test]
fn engine_output_unreadable_line() {
    let mut shown: Vec<String> = Vec::new();
    assert!(read_left_output(&mut shown, b"bestmove\n", &s(START)).is_none());
}

fn entry(mv: u16, weight: u16) -> PolyglotEntry {
    PolyglotEntry { mv: Move::from_u16(mv), weight }
}

#[test]
fn book_moves_heaviest_first() {
    let e2e4 = 4 | (3 << 3) | (4 << 6) | (1 << 9);
    let d2d4 = 3 | (3 << 3) | (3 << 6) | (1 << 9);
    let g1f3 = 5 | (2 << 3) | (6 << 6);
    let e2e5 = 4 | (4 << 3) | (4 << 6) | (1 << 9);
    let moves = vec![entry(e2e4, 10), entry(d2d4, 30), entry(g1f3, 10), entry(e2e5, 1)];
    let (shown, total) = init_search(moves, START).unwrap();
    assert_eq!(total, 51);
    assert_eq!(shown, vec![(s("d4"), 30), (s("e4"), 10), (s("Nf3"), 10), (s(""), 1)]);
    assert!(init_search(vec![entry(e2e4, 1)], "bad fen").is_none());
    assert_eq!(init_search(vec![], START).unwrap(), (vec![], 0));
}

#[test]
fn typed_comments() {
    assert_eq!(mod_comment(s("old"), Some(s("a {b} \"c\"\nd"))), "a [b] 'c' d");
    assert_eq!(mod_comment(s("old"), None), "old");
    assert_eq!(mod_comment(s("old"), Some(s(""))), "");
}

#[test]
fn board_buttons_move_through_the_game() {
    let l = pgn_moves_to_nodes(s("1. e4 ( 1. d4 d5 ) 1... e5 2. Nf3 *"), s("")).unwrap();
    assert_eq!(btn_prev_node(&l, &s("3z")), Some(s("2z")));
    assert_eq!(btn_prev_node(&l, &s("2z")), None);
    assert_eq!(btn_prev_node(&l, &s("1z1n")), None);
    assert_eq!(btn_prev_node(&l, &s("1z1n1z")), Some(s("1z1n")));
    assert_eq!(btn_next_node(&l, &s("2z")), Some(s("3z")));
    assert_eq!(btn_next_node(&l, &s("1z")), Some(s("2z")));
    assert_eq!(btn_next_node(&l, &s("4z")), None);
    assert_eq!(btn_first_node(&l, &s("4z")), Some(s("2z")));
    assert_eq!(btn_first_node(&l, &s("1z1n1z")), Some(s("1z1n")));
    assert_eq!(btn_last_node(&l, &s("2z")), Some(s("4z")));
    assert_eq!(btn_last_node(&l, &s("1z")), Some(s("4z")));
    assert_eq!(btn_last_node(&l, &s("1z1n")), Some(s("1z1n")));
}

#[test]
fn fen_written_reads_back() {
    for f in [START, "r3k2r/8/8/8/8/8/8/R3K2R w KQkq - 0 1", "8/8/8/3pP3/8/8/8/k6K w - d6 0 57",
        "rnbqkbnr/pp1ppppp/8/2p5/4P3/5N2/PPPP1PPP/RNBQKB1R b Kq - 1 2"] {
        let mut b = new_board();
        set_fen(&mut b, f);
        let written = get_fen(&mut b);
        let mut b2 = new_board();
        set_fen(&mut b2, &written);
        assert_eq!(get_board_array(&mut b2), get_board_array(&mut b));
        assert_eq!(get_fen(&mut b2), written);
    }
}

#[test]
fn same_board_move_twice_adds_one_node() {
    let mut l = pgn_moves_to_nodes(s("1. e4 *"), s("")).unwrap();
    let d4 = s("rnbqkbnr/pppppppp/8/8/3P4/8/PPP1PPPP/RNBQKBNR b KQkq d3 0 1");
    let first = xb_make_move(&mut l, s("1z"), d4.clone(), s("d4")).unwrap();
    let count = l.nodes.len();
    let second = xb_make_move(&mut l, s("1z"), d4, s("d4")).unwrap();
    assert_eq!(first, (s("1z1n"), true));
    assert_eq!(second, (s("1z1n"), false));
    assert_eq!(l.nodes.len(), count);
}

#[test]
fn nag_is_appended_with_a_dollar() {
    assert_eq!(lib::nagcomments::full_nag("", 1), "$1");
    assert_eq!(lib::nagcomments::full_nag("$1", 14), "$1$14");
}

#[test]
fn delete_button_goes_to_the_start_of_the_variation() {
    let l = pgn_moves_to_nodes(s("1. e4 ( 1. d4 d5 ) 1... e5 2. Nf3 *"), s("")).unwrap();
    assert_eq!(lib::buttonsboard::variation_start(&l, &s("4z")), Some(s("2z")));
    assert_eq!(lib::buttonsboard::variation_start(&l, &s("1z1n1z")), Some(s("1z1n")));
    assert_eq!(lib::buttonsboard::variation_start(&l, &s("1z1n")), Some(s("1z1n")));
}

#[test]
fn position_search_texts_from_the_editor_board() {
    let mut b = create_board();
    fensearch::set_fen(s("4k3/8/8/8/8/8/4P3/4K3 w - - 0 1"), &mut b);
    let pattern = fensearch::position_pattern(&b);
    assert_eq!(pattern, "????k???/????????/????????/????????/????????/????????/????P???/????K???");
    assert_eq!(fensearch::exact_fen(&b), Some(s("4k3/8/8/8/8/8/4P3/4K3")));
    assert_eq!(fensearch::material_search(&b), "K1+k1+P1+p0+N0+n0+B0+b0+R0+r0+Q0+q0");
    let mut nok = create_board();
    fensearch::set_fen(s("8/8/8/8/8/8/4P3/4K3 w - - 0 1"), &mut nok);
    assert_eq!(fensearch::exact_fen(&nok), None);
}
