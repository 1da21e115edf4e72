use lib::internalxboard::{alfa_notacion, esta_en_tablero, num_notacion};
use lib::levels::{get_branch_node, get_child_indx, get_next_mainline_indx, get_next_sibling_indx,
    is_absolute_mainline, root_node};
use lib::pgnglobs::{BranchIndexNodes, DbEntry, GameInfo, ListNodes, Node, PgnGame, EMPTY_GAME};

fn s(t: &str) -> String {
    t.to_string()
}

#[test]
fn root_is_first_move() {
    assert_eq!(root_node(), "1z");
}

#[test]
fn next_mainline_counts_up() {
    assert_eq!(get_next_mainline_indx(s("1z")), "2z");
    assert_eq!(get_next_mainline_indx(s("9z")), "10z");
    assert_eq!(get_next_mainline_indx(s("3z")), "4z");
    assert_eq!(get_next_mainline_indx(s("1z2n1z")), "1z2n2z");
    assert_eq!(get_next_mainline_indx(s("1z2n12z")), "1z2n13z");
}

#[test]
fn next_mainline_of_a_variation_start() {
    assert_eq!(get_next_mainline_indx(s("3z1n")), "3z1n1z");
    assert_eq!(get_next_mainline_indx(s("")), "1z");
}

#[test]
fn sibling_index() {
    assert_eq!(get_next_sibling_indx(s("3z"), 0), "4z");
    assert_eq!(get_next_sibling_indx(s("3z"), 2), "3z2n");
    assert_eq!(get_next_sibling_indx(s("3z1n4z"), 1), "3z1n4z1n");
}

#[test]
fn child_index() {
    assert_eq!(get_child_indx(s("3z2n")), 2);
    assert_eq!(get_child_indx(s("3z12n")), 12);
    assert_eq!(get_child_indx(s("3z")), 0);
    assert_eq!(get_child_indx(s("3z1n1z")), 0);
}

#[test]
fn child_index_of_a_sibling() {
    let idx = get_next_sibling_indx(s("5z1n2z"), 3);
    assert_eq!(get_child_indx(idx), 3);
}

#[test]
fn absolute_mainline() {
    assert!(is_absolute_mainline(s("1z")));
    assert!(is_absolute_mainline(s("27z")));
    assert!(!is_absolute_mainline(s("3z1n1z")));
    assert!(!is_absolute_mainline(s("3z1n")));
    assert!(!is_absolute_mainline(s("")));
}

#[test]
fn next_of_mainline_stays_mainline() {
    let mut idx = root_node();
    for _ in 0..12 {
        idx = get_next_mainline_indx(idx);
        assert!(is_absolute_mainline(idx.clone()));
    }
    assert_eq!(idx, "13z");
}

#[test]
fn branch_node_of_mainline_is_none() {
    assert_eq!(get_branch_node(s("1z")), None);
    assert_eq!(get_branch_node(s("14z")), None);
}

#[test]
fn branch_node_of_first_level_variation() {
    assert_eq!(get_branch_node(s("3z1n1z")), Some(s("4z")));
    assert_eq!(get_branch_node(s("3z2n5z")), Some(s("4z")));
    assert_eq!(get_branch_node(s("12z1n3z")), Some(s("13z")));
}

#[test]
fn branch_node_of_nested_variation() {
    assert_eq!(get_branch_node(s("3z1n2z1n1z")), Some(s("3z1n3z")));
    assert_eq!(get_branch_node(s("3z1n1n1z")), Some(s("3z1n1z")));
}

#[test]
fn coordinates() {
    assert!(esta_en_tablero((0, 0)));
    assert!(esta_en_tablero((7, 7)));
    assert!(!esta_en_tablero((8, 0)));
    assert!(!esta_en_tablero((0, 8)));
    assert_eq!(alfa_notacion((0, 0)), "a1");
    assert_eq!(alfa_notacion((3, 4)), "e4");
    assert_eq!(alfa_notacion((8, 4)), "None");
    assert_eq!(num_notacion("e4"), (3, 4));
    assert_eq!(num_notacion("h8"), (7, 7));
}

#[test]
fn coordinate_round_trip() {
    for sq in ["a1", "e4", "h8", "c7"] {
        let n = num_notacion(sq);
        assert_eq!(alfa_notacion(n), sq);
    }
}

#[test]
fn new_records() {
    let g = GameInfo::new();
    assert_eq!(g.eco, "000");
    assert_eq!(g.fen, "rnbqkbnr/pppppppp/8/8/8/8/PPPPPPPP/RNBQKBNR w KQkq - 0 1");
    assert!(g.white.is_empty() && g.tags.is_empty());
    let e = DbEntry::new();
    assert_eq!(e.id, 1);
    assert_eq!(e.pgn, EMPTY_GAME);
    let p = PgnGame::new();
    assert!(p.moves.is_empty());
    assert_eq!(p.eco, "000");
    let n = Node::new();
    assert!(n.children.is_empty() && n.fen.is_empty() && n.branch_level == 0);
}

#[test]
fn list_nodes_set_and_get() {
    let mut l = ListNodes::new();
    assert!(!l.node_exists(s("1z")));
    l.init_node(s("1z"));
    assert!(l.node_exists(s("1z")));
    l.init_fen(s("1z"), s("some fen"));
    l.set_parent_indx(s("1z"), s("root"));
    l.set_start_comment(s("1z"), s("opening"));
    l.push_children(s("1z"), s("2z"));
    l.push_children(s("1z"), s("1z1n"));
    assert_eq!(l.get_fen(s("1z")), "some fen");
    assert_eq!(l.get_parent_indx(s("1z"), s("")), "root");
    assert_eq!(l.get_start_comment(s("1z")), "opening");
    assert_eq!(l.get_children_length(s("1z")), 2);
    l.init_children(s("1z"));
    assert_eq!(l.get_children_length(s("1z")), 0);
    assert_eq!(l.get_fen(s("1z")), "some fen");
}

#[test]
fn list_nodes_missing_node() {
    let mut l = ListNodes::new();
    l.set_fen(s("5z"), s("x"));
    assert!(!l.node_exists(s("5z")));
    assert_eq!(l.get_fen(s("5z")), "");
    assert_eq!(l.get_children_length(s("5z")), 0);
    assert_eq!(l.get_parent_indx(s("5z"), s("")), "");
}

#[test]
fn list_nodes_init_replaces() {
    let mut l = ListNodes::new();
    l.init_node(s("2z"));
    l.set_san(s("2z"), s("e4"));
    l.set_nag(s("2z"), s("$1"));
    l.set_comment(s("2z"), s("good"));
    l.set_branch_level(s("2z"), 3);
    assert_eq!(l.nodes.len(), 1);
    assert_eq!(l.nodes[0].1.san, "e4");
    assert_eq!(l.nodes[0].1.nag, "$1");
    assert_eq!(l.nodes[0].1.comment, "good");
    assert_eq!(l.nodes[0].1.branch_level, 3);
    l.init_node(s("2z"));
    assert_eq!(l.nodes.len(), 1);
    assert!(l.nodes[0].1.san.is_empty());
    l.init_branch_level(s("2z"), 1);
    assert_eq!(l.nodes[0].1.branch_level, 1);
}

#[test]
fn branch_index_values() {
    let mut b = BranchIndexNodes::new();
    b.set_indx_value(1, s("3z1n"));
    b.set_indx_value(1, s("4z1n"));
    b.set_indx_value(2, s("5z"));
    assert_eq!(b.branch_index.len(), 2);
    assert_eq!(b.branch_index.get(&1).unwrap(), "4z1n");
}
