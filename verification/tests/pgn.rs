use lib::pgnglobs::EMPTY_GAME;
use lib::pgnsearch::{search_pattern_exact_fen, search_pattern_material, search_pattern_position_fen};
use lib::pgntext::{convert_nag2symbol, get_tag_branchlevel, nag_symbol, normalize_pgn_moves, parse_pgn_data,
    parse_pgn_moves, read_games_string, read_games_text};
use lib::wchess::{get_board_array, move_san, new_board};

#[test]
fn normalize_spreads_comments_and_numbers() {
    let mut s = "1.e4 e5 2.Nf3 {good move}(2.f4 exf4)$1 *".to_string();
    assert_eq!(
        normalize_pgn_moves(&mut s),
        "1. e4 e5 2. Nf3 { good move } ( 2. f4 exf4 ) $1 *"
    );
}

#[test]
fn normalize_drops_bracketed_remarks() {
    let mut s = "  12...Nf6  [Annotator x]c5  ".to_string();
    assert_eq!(normalize_pgn_moves(&mut s), "12. Nf6 c5");
    let mut t = "[%clk 0:01] 1... Nf6".to_string();
    assert_eq!(normalize_pgn_moves(&mut t), "[%clk 0:01] 1. Nf6");
}

#[test]
fn normalize_empty_text() {
    let mut s = "   ".to_string();
    assert_eq!(normalize_pgn_moves(&mut s), "");
}

fn sample_game() -> String {
    "[Event \"Test\"]\n[Site \"Here\"]\n[White \"A\"]\n[Black \"B\"]\n[Result \"1-0\"]\n[WhiteElo \"2000\"]\n[Annotator \"X\"]\n\n1.e4 e5\n2.Nf3 1-0\n".to_string()
}

#[test]
fn parse_header_fields() {
    let mut s = sample_game();
    let g = parse_pgn_data(&mut s);
    assert_eq!(g.event, "Test");
    assert_eq!(g.site, "Here");
    assert_eq!(g.white, "A");
    assert_eq!(g.black, "B");
    assert_eq!(g.res, "1-0");
    assert_eq!(g.elow, "2000");
    assert_eq!(g.elob, "");
    assert_eq!(g.eco, "000");
    assert_eq!(g.fen, "rnbqkbnr/pppppppp/8/8/8/8/PPPPPPPP/RNBQKBNR w KQkq - 0 1");
    assert_eq!(g.tags, vec!["[Annotator \"X\"]".to_string()]);
    // move lines are joined as they stand
    assert_eq!(g.moves, "1. e4 e52. Nf3 1-0");
}

#[test]
fn parse_fen_tag_and_crlf_lines() {
    let mut s = "[FEN \"8/8/8/8/8/8/8/K6k w - - 0 1\"]\r\n[ECO \"B01\"]\r\n\r\n1.Kb1 *\r\n".to_string();
    let g = parse_pgn_moves(&mut s);
    assert_eq!(g.fen, "8/8/8/8/8/8/8/K6k w - - 0 1");
    assert_eq!(g.eco, "B01");
    assert_eq!(g.moves, "1. Kb1 *");
}

#[test]
fn split_games_in_pairs() {
    let mut games: Vec<String> = Vec::new();
    read_games_string("[A \"1\"]\n\n1. e4 *\n\n[B \"2\"]\n\n1. d4 *".to_string(), &mut games);
    assert_eq!(games, vec!["[A \"1\"]\n\n1. e4 *".to_string(), "[B \"2\"]\n\n1. d4 *".to_string()]);
}

#[test]
fn odd_blocks_leave_games() {
    let mut games: Vec<String> = vec!["old".to_string()];
    read_games_string("x\n\ny\n\nz".to_string(), &mut games);
    assert_eq!(games, vec!["old".to_string()]);
}

#[test]
fn file_text_with_empty_game_first() {
    let mut games: Vec<String> = Vec::new();
    let ok = read_games_text("[A \"1\"]\r\n\r\n1. e4 *".to_string(), &mut games);
    assert!(ok);
    assert_eq!(games.len(), 2);
    assert_eq!(games[0], EMPTY_GAME);
    assert_eq!(games[1], "[A \"1\"]\n\n1. e4 *");
    let mut bad: Vec<String> = Vec::new();
    assert!(!read_games_text("a\n\nb\n\nc".to_string(), &mut bad));
    assert_eq!(bad, vec![EMPTY_GAME.to_string(), EMPTY_GAME.to_string()]);
}

#[test]
fn nag_symbols() {
    assert_eq!(convert_nag2symbol("$1".to_string()), " !");
    assert_eq!(convert_nag2symbol("$3$14".to_string()), " \u{203C}\u{2A72}");
    assert_eq!(convert_nag2symbol("$0".to_string()), " ");
    assert_eq!(convert_nag2symbol("$+18".to_string()), " +-");
    assert_eq!(nag_symbol(146), "N");
    assert_eq!(nag_symbol(250), "");
}

#[test]
fn branch_level_tags() {
    assert_eq!(get_tag_branchlevel(0), "branchlevel0");
    assert_eq!(get_tag_branchlevel(4), "branchlevel4");
    assert_eq!(get_tag_branchlevel(5), "branchlevel5");
    assert_eq!(get_tag_branchlevel(9), "branchlevel5");
}

fn position_after(sans: &[&str]) -> [i32; 64] {
    let mut b = new_board();
    for s in sans {
        let m = move_san(&mut b, s);
        assert!(m.movim.move_int != 0);
    }
    get_board_array(&mut b)
}

#[test]
fn exact_position_found() {
    let target = position_after(&["e4", "e5", "Nf3"]);
    let moves = "1. e4 e5 2. Nf3 Nc6 *".to_string();
    assert_eq!(search_pattern_exact_fen(moves, "".to_string(), 7, target), 7);
}

#[test]
fn exact_position_not_reached() {
    let target = position_after(&["d4", "d5"]);
    let moves = "1. e4 e5 2. Nf3 Nc6 *".to_string();
    assert_eq!(search_pattern_exact_fen(moves, "".to_string(), 7, target), -1);
}

#[test]
fn variations_and_comments_are_passed_over() {
    let target = position_after(&["d4"]);
    let moves = "1. e4 ( 1. d4 d5 ) { a comment ( here } 1... e5 *".to_string();
    assert_eq!(search_pattern_exact_fen(moves, "".to_string(), 3, target), -1);
    let target = position_after(&["e4", "e5"]);
    let moves = "1. e4 ( 1. d4 d5 ) { a comment } 1... e5 *".to_string();
    assert_eq!(search_pattern_exact_fen(moves, "".to_string(), 3, target), 3);
}

#[test]
fn capture_makes_search_give_up() {
    // after the capture white has one pawn fewer than the target asks for
    let target = position_after(&["e4", "d5", "Nc3"]);
    let moves = "1. e4 d5 2. exd5 Qxd5 *".to_string();
    assert_eq!(search_pattern_exact_fen(moves, "".to_string(), 1, target), -1);
}

#[test]
fn unreadable_game_gives_minus_one() {
    let target = position_after(&["e4", "e5"]);
    assert_eq!(search_pattern_exact_fen("1. e4 e4 *".to_string(), "".to_string(), 2, target), -1);
    assert_eq!(search_pattern_exact_fen("1. e4 { open".to_string(), "".to_string(), 2, target), -1);
    assert_eq!(search_pattern_exact_fen("1. e4 e5".to_string(), "bad fen".to_string(), 2, target), -1);
}

#[test]
fn pattern_found_on_its_squares() {
    let mut pattern = [0i32; 64];
    pattern[21] = 3; // a white knight on f3
    let moves = "1. e4 e5 2. Nf3 Nc6 *".to_string();
    assert_eq!(search_pattern_position_fen(moves, "".to_string(), 9, pattern), 9);
    let empty = [0i32; 64];
    let moves = "1. e4 e5 *".to_string();
    assert_eq!(search_pattern_position_fen(moves, "".to_string(), 9, empty), -1);
}

#[test]
fn castling_with_zeros_in_search() {
    let target = position_after(&["e4", "e5", "Nf3", "Nc6", "Bc4", "Bc5", "O-O"]);
    let moves = "1. e4 e5 2. Nf3 Nc6 3. Bc4 Bc5 4. 0-0 Nf6 *".to_string();
    assert_eq!(search_pattern_exact_fen(moves, "".to_string(), 4, target), 4);
}

#[test]
fn material_search_waits_for_move_sixty() {
    let moves = "1. e4 e5 2. Nf3 Nc6 *".to_string();
    assert_eq!(search_pattern_material(moves, "".to_string(), 5, "P8+p8".to_string()), -1);
}
