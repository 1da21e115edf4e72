use lib::pgnglobs::{DbEntry, GameInfo, ListNodes};
use lib::pgntext::game_fields_quoted;
use lib::pgnwrite::{create_pgn, nodes_to_pgn, traverse_nodes_plain};
use lib::pgnread::{pgn_moves_to_nodes, read_nodes_from_file, res_to_enum};

fn s(t: &str) -> String {
    t.to_string()
}

fn node_of<'a>(l: &'a ListNodes, idx: &str) -> Option<&'a lib::pgnglobs::Node> {
    l.nodes.iter().find(|(k, _)| k == idx).map(|(_, n)| n)
}

#[test]
fn main_line_nodes() {
    let mut l = pgn_moves_to_nodes(s("1. e4 e5 2. Nf3 *"), s("")).unwrap();
    assert_eq!(l.nodes.len(), 4);
    assert_eq!(l.get_fen(s("1z")), "rnbqkbnr/pppppppp/8/8/8/8/PPPPPPPP/RNBQKBNR w KQkq - 0 1");
    assert_eq!(l.get_fen(s("2z")), "rnbqkbnr/pppppppp/8/8/4P3/8/PPPP1PPP/RNBQKBNR b KQkq e3 0 1");
    assert_eq!(l.get_parent_indx(s("3z"), s("")), "2z");
    assert_eq!(node_of(&l, "4z").unwrap().san, "Nf3");
    assert_eq!(l.get_children_length(s("1z")), 1);
    assert_eq!(l.get_children_length(s("4z")), 0);
    assert!(!l.node_exists(s("5z")));
}

#[test]
fn variation_nodes() {
    let mut l = pgn_moves_to_nodes(s("1. e4 ( 1. d4 ) 1... e5 *"), s("")).unwrap();
    assert_eq!(l.nodes.len(), 4);
    let root = node_of(&l, "1z").unwrap();
    assert_eq!(root.children, vec![s("2z"), s("1z1n")]);
    let var = node_of(&l, "1z1n").unwrap();
    assert_eq!(var.san, "d4");
    assert_eq!(var.branch_level, 1);
    assert_eq!(var.parent_indx, "1z");
    assert_eq!(l.get_fen(s("1z1n")), "rnbqkbnr/pppppppp/8/8/3P4/8/PPP1PPPP/RNBQKBNR b KQkq d3 0 1");
    let e5 = node_of(&l, "3z").unwrap();
    assert_eq!(e5.san, "e5");
    assert_eq!(e5.parent_indx, "2z");
    assert_eq!(e5.branch_level, 0);
    assert!(!l.node_exists(s("1z1n1z")));
}

#[test]
fn comments_and_nags() {
    let l = pgn_moves_to_nodes(s("{ Start } 1. e4 $1 { good move } e5 *"), s("")).unwrap();
    let root = node_of(&l, "1z").unwrap();
    assert_eq!(root.comment, "Start");
    let e4 = node_of(&l, "2z").unwrap();
    assert_eq!(e4.start_comment, "");
    assert_eq!(e4.nag, "$1");
    assert_eq!(e4.comment, "good move");
}

#[test]
fn castling_and_start_position() {
    let l = pgn_moves_to_nodes(s("1. 0-0 *"), s("r3k2r/8/8/8/8/8/8/R3K2R w KQkq - 0 1")).unwrap();
    let n = node_of(&l, "2z").unwrap();
    assert_eq!(n.san, "0-0");
    assert_eq!(n.fen, "r3k2r/8/8/8/8/8/8/R4RK1 b kq - 1 1");
}

#[test]
fn empty_move_text() {
    let l = pgn_moves_to_nodes(s(""), s("")).unwrap();
    assert_eq!(l.nodes.len(), 1);
}

#[test]
fn unreadable_texts() {
    assert!(pgn_moves_to_nodes(s("1. e4 e4 *"), s("")).is_none());
    assert!(pgn_moves_to_nodes(s("1. e4 { never closed"), s("")).is_none());
    assert!(pgn_moves_to_nodes(s("1. e4 ) *"), s("")).is_none());
    assert!(pgn_moves_to_nodes(s("1. e4 x *"), s("")).is_none());
    assert!(pgn_moves_to_nodes(s("1. e4"), s("not a fen")).is_none());
}

#[test]
fn main_line_written_back() {
    let l = pgn_moves_to_nodes(s("1. e4 e5 2. Nf3 *"), s("")).unwrap();
    let pgn = create_pgn(l, GameInfo::new()).unwrap();
    let expected = "[Event \"\"]\n[Site \"\"]\n[Date \"\"]\n[Round \"\"]\n[White \"\"]\n[Black \"\"]\n[Result \" \"]\n[WhiteElo \"\"]\n[BlackElo \"\"]\n[FEN \"rnbqkbnr/pppppppp/8/8/8/8/PPPPPPPP/RNBQKBNR w KQkq - 0 1\"]\n[ECO \"000\"]\n\n0. e4 e5 1. Nf3   \n";
    assert_eq!(pgn, expected);
}

#[test]
fn variation_written_back() {
    let mut l = pgn_moves_to_nodes(s("1. e4 ( 1. d4 ) 1... e5 *"), s("")).unwrap();
    assert_eq!(traverse_nodes_plain(&mut l).unwrap(), "0. e4 (0. d4) 0... e5 ");
}

#[test]
fn result_and_comments_written_back() {
    let mut l = pgn_moves_to_nodes(s("{ Start } 1. e4 $1 { good } e5 *"), s("")).unwrap();
    assert_eq!(nodes_to_pgn(&mut l, s("2z")).unwrap(), "0. e4 $1  {good} ");
    let mut g = GameInfo::new();
    g.res = s("1");
    g.white = s("A");
    let pgn = create_pgn(l, g).unwrap();
    assert!(pgn.contains("[White \"A\"]\n"));
    assert!(pgn.contains("[Result \"1-0\"]\n"));
    assert!(pgn.ends_with(" 1-0\n"));
}

#[test]
fn tree_without_root_is_not_written() {
    let l = ListNodes::new();
    assert!(create_pgn(l, GameInfo::new()).is_none());
}

#[test]
fn result_codes() {
    assert_eq!(res_to_enum(s("1-0")), "1");
    assert_eq!(res_to_enum(s("1/2-1/2")), "2");
    assert_eq!(res_to_enum(s("0-1")), "3");
    assert_eq!(res_to_enum(s("*")), "4");
    assert_eq!(res_to_enum(s("")), "4");
}

#[test]
fn entry_read_into_tree() {
    let mut entry = DbEntry::new();
    entry.pgn = s("[White \"Ann\"]\n[Black \"Bob\"]\n[Result \"0-1\"]\n\n1. f3 e5 2. g4 Qh4# 0-1\n");
    assert!(game_fields_quoted(&entry.pgn));
    let mut l = read_nodes_from_file(&mut entry).unwrap();
    assert_eq!(entry.game_info.white, "Ann");
    assert_eq!(entry.game_info.black, "Bob");
    assert_eq!(entry.game_info.res, "3");
    assert_eq!(l.nodes.len(), 5);
    assert_eq!(l.get_fen(s("5z")), "rnb1kbnr/pppp1ppp/8/4p3/6Pq/5P2/PPPPP2P/RNBQKBNR w KQkq - 1 3");
}

#[test]
fn unquoted_tag_is_refused() {
    assert!(!game_fields_quoted(&s("[White Ann]\n\n1. e4 *")));
    assert!(game_fields_quoted(&s("[Annotator X]\n\n1. e4 *")));
}
