use vstd::prelude::*;
use std::collections::HashMap;
use crate::board::{Board, squares_after_make, cw_after, cb_after, ep_after, fifty_after, full_after, lemma_wf_unique};
use crate::tables::AttackTables;
use crate::movim::Movim;
use crate::legalmoves::{legal_moves, played, can_make, LegalMove};
use crate::sanmove::{san_pick, san_readable, san_played};
use crate::displaymove::lemma_legal_congruent;
use crate::fen::{fen_ok, fen_text, words, placement_squares, castle_rights, ep_value, parse_i32, placement_fen,
    castle_fen, ep_fen};
use crate::globs::{DEFAULT_POSITION, MAX_GAME_LINE};
use crate::levels::{next_mainline, mainline_ok, root_node, get_next_mainline_indx};
use crate::pgnglobs::{ListNodes, Node, NodeModel, BranchIndexNodes, blank_model, model_changed, NodeChange,
    lemma_change_map, lemma_init_map, keep_moves};
use crate::pgntext::{pieces, split_chars, trim, trim_chars};
use crate::pgnsearch::{is_end_marker, all_dots, san_letter, close_brace, lemma_close_brace, castle_form,
    more_than_one_byte, start_fen_of};
use crate::strutil::{chars_of, string_from_chars, int_chars};

verus! {

// Reading the move text of a game into the move tree: each move becomes a
// node under its index (see `levels`), with the position after it, its
// comments and NAG; variations hang below the move they stand beside.

/// The FEN of a position given by its parts.
pub open spec fn fen_of(sq: Seq<i32>, next: u8, cw: u8, cb: u8, ep: i32, fifty: i32, full: i32) -> Seq<char> {
    placement_fen(sq) + (if next == 0 { seq![' ', 'w', ' '] } else { seq![' ', 'b', ' '] }) + castle_fen(cw, cb)
        + seq![' '] + ep_fen(ep) + seq![' '] + int_chars(fifty as int) + seq![' '] + int_chars(full as int)
}

/// A board as `setup_fen` leaves it for the FEN `f`, with the tables `t`.
pub open spec fn fen_setup(b: Board, f: Seq<char>, t: AttackTables) -> bool {
    let w = words(f);
    &&& b.wf()
    &&& b.tables == t
    &&& b.square@ == placement_squares(w[0])
    &&& b.next_move == (if w[1] == seq!['b'] { 1u8 } else { 0u8 })
    &&& b.castle_white == castle_rights(w[2], 'K', 'Q')
    &&& b.castle_black == castle_rights(w[2], 'k', 'q')
    &&& b.ep_square == ep_value(w[3])
    &&& b.fifty_move == parse_i32(w[4])->0
    &&& b.full_moves == parse_i32(w[5])->0
}

/// The FEN after the SAN move `s` from the position of the FEN `f`, with
/// `k` moves in the game line: None when the FEN cannot be read, the game
/// line is full, or the move cannot be read or played.
pub open spec fn fen_after_san(f: Seq<char>, s: Seq<char>, k: int, t: AttackTables) -> Option<Seq<char>> {
    if fen_ok(f) && exists|b: Board| #[trigger] fen_setup(b, f, t) {
        let b = choose|b: Board| #[trigger] fen_setup(b, f, t);
        let legal = legal_moves(b);
        let i = san_pick(legal, b.next_move, s);
        if k < MAX_GAME_LINE && b.fifty_move < i32::MAX && b.full_moves < i32::MAX && san_readable(legal, s) && 0
            <= i && legal[i].move_int != 0 {
            let m = legal[i];
            Some(fen_of(squares_after_make(b.square@, m), b.next_move ^ 1u8, cw_after(b.castle_white, m), cb_after(
                b.castle_black, m), ep_after(m), fifty_after(b.fifty_move, m), full_after(b.full_moves, m)))
        } else {
            None
        }
    } else {
        None
    }
}

/// The state of the reader: the nodes, the parent and current indices, the
/// node comments and NAGs go to, the variation depth, the first node of
/// each open variation by depth, whether a comment opens a variation, and
/// the moves played so far.
pub struct ReadState {
    pub nodes: Map<Seq<char>, NodeModel>,
    pub parent: Seq<char>,
    pub cur: Seq<char>,
    pub comment_at: Seq<char>,
    pub level: int,
    pub branch: Map<i32, Seq<char>>,
    pub starts: bool,
    pub moves: int,
}

/// The node `k` changed by `f`, when there is one.
pub open spec fn edit(m: Map<Seq<char>, NodeModel>, k: Seq<char>, f: spec_fn(NodeModel) -> NodeModel) -> Map<
    Seq<char>,
    NodeModel,
> {
    if m.contains_key(k) { m.insert(k, f(m[k])) } else { m }
}

pub open spec fn with_nag(v: Seq<char>) -> spec_fn(NodeModel) -> NodeModel {
    |n: NodeModel| NodeModel { nag: v, ..n }
}

pub open spec fn with_start_comment(v: Seq<char>) -> spec_fn(NodeModel) -> NodeModel {
    |n: NodeModel| NodeModel { start_comment: v, ..n }
}

pub open spec fn with_comment(v: Seq<char>) -> spec_fn(NodeModel) -> NodeModel {
    |n: NodeModel| NodeModel { comment: v, ..n }
}

pub open spec fn with_san(v: Seq<char>) -> spec_fn(NodeModel) -> NodeModel {
    |n: NodeModel| NodeModel { san: v, ..n }
}

pub open spec fn with_fen(v: Seq<char>) -> spec_fn(NodeModel) -> NodeModel {
    |n: NodeModel| NodeModel { fen: v, ..n }
}

pub open spec fn with_child(v: Seq<char>) -> spec_fn(NodeModel) -> NodeModel {
    |n: NodeModel| NodeModel { children: n.children.push(v), ..n }
}

/// What each turn of the reader does first: the current node exists, with
/// the parent and the depth.
pub open spec fn prepare(st: ReadState) -> ReadState {
    let n1 = if st.nodes.contains_key(st.cur) { st.nodes } else { st.nodes.insert(st.cur, blank_model()) };
    let n2 = n1.insert(st.cur, NodeModel { parent: st.parent, branch_level: st.level, ..n1[st.cur] });
    ReadState { nodes: n2, ..st }
}

/// The text of a comment: the words `ts[a..b]`, each after a space.
pub open spec fn comment_text(ts: Seq<Seq<char>>, a: int, b: int) -> Seq<char>
    decreases b - a,
{
    if b <= a { seq![] } else { comment_text(ts, a, b - 1) + seq![' '] + ts[b - 1] }
}

/// A move number: a digit 1..9 first, or dots only.
pub open spec fn is_move_number(t: Seq<char>) -> bool {
    (t.len() > 0 && '1' <= t[0] <= '9') || all_dots(t)
}

/// The index after `parent` for the variation `n` beside it (0: the next
/// move); None when it cannot be computed.
pub open spec fn sibling_index(parent: Seq<char>, n: int) -> Option<Seq<char>> {
    if n == 0 {
        if mainline_ok(parent) { Some(next_mainline(parent)) } else { None }
    } else {
        Some(parent + int_chars(n) + seq!['n'])
    }
}

/// Reading the SAN move `tok`.
pub open spec fn read_san(st: ReadState, tok: Seq<char>, t: AttackTables) -> Option<ReadState> {
    let n1 = edit(st.nodes, st.parent, with_child(st.cur));
    let n2 = edit(n1, st.cur, with_san(tok));
    if st.level + 1 > i32::MAX || !n2.contains_key(st.parent) || !mainline_ok(st.cur) {
        None
    } else {
        match fen_after_san(n2[st.parent].fen, castle_form(tok, true), st.moves, t) {
            None => None,
            Some(f) => Some(
                ReadState {
                    nodes: edit(n2, st.cur, with_fen(f)),
                    parent: st.cur,
                    cur: next_mainline(st.cur),
                    comment_at: st.cur,
                    branch: st.branch.insert((st.level + 1) as i32, st.cur),
                    starts: false,
                    moves: st.moves + 1,
                    ..st
                },
            ),
        }
    }
}

/// Reading `(`: a variation beside the last move of the next depth.
pub open spec fn open_variation(st: ReadState) -> Option<ReadState> {
    let lv = st.level + 1;
    if lv > i32::MAX || !st.branch.contains_key(lv as i32) {
        None
    } else {
        let idx = st.branch[lv as i32];
        let parent = if st.nodes.contains_key(idx) { st.nodes[idx].parent } else { seq![] };
        let n = if st.nodes.contains_key(parent) { (st.nodes[parent].children.len() as i32) as int } else { 0 };
        match sibling_index(parent, n) {
            None => None,
            Some(cur) => Some(ReadState { parent, cur, comment_at: cur, level: lv, starts: true, ..st }),
        }
    }
}

/// Reading `)`: back to the line the variation stands beside.
pub open spec fn close_variation(st: ReadState) -> Option<ReadState> {
    if !st.branch.contains_key(st.level as i32) || !mainline_ok(st.branch[st.level as i32]) {
        None
    } else {
        let parent = st.branch[st.level as i32];
        let cur = next_mainline(parent);
        Some(ReadState { parent, cur, comment_at: cur, level: st.level - 1, starts: true, ..st })
    }
}

/// One turn of the reader at the text `ts[i]`: the state after it and
/// where the next turn starts; None when the text cannot be read.
pub open spec fn read_step(st0: ReadState, ts: Seq<Seq<char>>, i: int, t: AttackTables) -> Option<(ReadState, int)> {
    let st = prepare(st0);
    let tok = ts[i];
    if is_end_marker(tok) {
        Some((ReadState { starts: false, ..st }, i + 1))
    } else if tok.len() > 0 && tok[0] == '$' {
        Some((ReadState { nodes: edit(st.nodes, st.comment_at, with_nag(tok)), starts: false, ..st }, i + 1))
    } else if is_move_number(tok) {
        Some((ReadState { starts: false, ..st }, i + 1))
    } else if tok == seq!['{'] {
        let j = close_brace(ts, i + 1);
        if j < 0 {
            None
        } else {
            let c = trim(comment_text(ts, i + 1, j));
            let nodes = if st.starts {
                edit(st.nodes, st.comment_at, with_start_comment(c))
            } else {
                edit(st.nodes, st.comment_at, with_comment(c))
            };
            Some((ReadState { nodes, starts: false, ..st }, j + 1))
        }
    } else if tok.len() == 0 || tok[0] as int >= 128 {
        None
    } else if san_letter(tok[0]) {
        match read_san(st, tok, t) {
            None => None,
            Some(s) => Some((s, i + 1)),
        }
    } else if tok == seq!['('] {
        match open_variation(st) {
            None => None,
            Some(s) => Some((s, i + 1)),
        }
    } else if tok == seq![')'] {
        match close_variation(st) {
            None => None,
            Some(s) => Some((s, i + 1)),
        }
    } else {
        None
    }
}

pub proof fn lemma_read_step_moves_on(st: ReadState, ts: Seq<Seq<char>>, i: int, t: AttackTables)
    requires
        0 <= i < ts.len(),
    ensures
        match read_step(st, ts, i, t) {
            Some((_, j)) => i < j <= ts.len(),
            None => true,
        },
{
    lemma_close_brace(ts, i + 1);
}

/// The reader from the text `ts[i]` on.
pub open spec fn read_from(st: ReadState, ts: Seq<Seq<char>>, i: int, t: AttackTables) -> Option<ReadState>
    decreases ts.len() - i,
{
    if i < 0 || i >= ts.len() {
        Some(st)
    } else {
        match read_step(st, ts, i, t) {
            None => None,
            Some((s, j)) => {
                proof { lemma_read_step_moves_on(st, ts, i, t); }
                read_from(s, ts, j, t)
            },
        }
    }
}

/// The words of the move text; none for an empty text.
pub open spec fn move_words(moves: Seq<char>) -> Seq<Seq<char>> {
    if pieces(moves, ' ') == seq![Seq::<char>::empty()] { seq![] } else { pieces(moves, ' ') }
}

/// The state before the first word: the root with the starting FEN.
pub open spec fn first_state(fen: Seq<char>) -> ReadState {
    ReadState {
        nodes: Map::empty().insert(seq!['1', 'z'], NodeModel { fen, ..blank_model() }),
        parent: seq!['1', 'z'],
        cur: seq!['2', 'z'],
        comment_at: seq!['2', 'z'],
        level: 0,
        branch: Map::empty(),
        starts: true,
        moves: 0,
    }
}

/// The end of reading: a comment before the first move goes to the root,
/// and nodes without a move, but the root, are dropped.
pub open spec fn finish(m: Map<Seq<char>, NodeModel>) -> Map<Seq<char>, NodeModel> {
    let root = seq!['1', 'z'];
    let first = seq!['2', 'z'];
    let fc = if m.contains_key(first) { m[first].start_comment } else { seq![] };
    let m1 = if fc.len() > 0 { edit(edit(m, root, with_comment(fc)), first, with_start_comment(seq![])) } else {
        m
    };
    Map::new(|k: Seq<char>| m1.contains_key(k) && (k == root || m1[k].san.len() > 0), |k: Seq<char>| m1[k])
}

/// The move tree of a game's move text from the FEN `start_fen` (the
/// initial position when it is not given), with the tables `t`: None when
/// the FEN or the text cannot be read.
pub open spec fn nodes_read(moves: Seq<char>, start_fen: Seq<char>, t: AttackTables) -> Option<Map<Seq<char>, NodeModel>> {
    let fen = start_fen_of(start_fen);
    if !fen_ok(fen) {
        None
    } else {
        match read_from(first_state(fen), move_words(moves), 0, t) {
            None => None,
            Some(st) => Some(finish(st.nodes)),
        }
    }
}


/// The reader at work: the nodes and indices of `ReadState`, and the board
/// the moves are played on.
pub struct Reader {
    pub nodes: ListNodes,
    pub parent: String,
    pub cur: String,
    pub comment_at: String,
    pub level: i32,
    pub branch: BranchIndexNodes,
    pub starts: bool,
    pub game: Board,
}

impl Reader {
    pub open spec fn state(self) -> ReadState {
        ReadState {
            nodes: self.nodes.map(),
            parent: self.parent@,
            cur: self.cur@,
            comment_at: self.comment_at@,
            level: self.level as int,
            branch: self.branch.branch_index@.map_values(|s: String| s@),
            starts: self.starts,
            moves: self.game.end_of_search as int,
        }
    }

    /// The nodes have distinct indices, the board is well formed with the
    /// tables `t`, the depth is not negative and the open variations have
    /// depths from 1 on.
    pub open spec fn inv(self, t: AttackTables) -> bool {
        &&& self.nodes.wf()
        &&& self.game.wf()
        &&& self.game.tables == t
        &&& self.level >= 0
        &&& forall|k: i32| #[trigger] self.branch.branch_index@.contains_key(k) ==> k >= 1
    }

    /// The first part of each turn (see `prepare`).
    fn prepare_turn(&mut self, Ghost(t): Ghost<AttackTables>)
        requires
            old(self).inv(t),
        ensures
            final(self).inv(t),
            final(self).state() == prepare(old(self).state()),
            final(self).game == old(self).game,
            final(self).branch == old(self).branch,
    {
        let ghost st = self.state();
        let ghost m0 = self.nodes.map();
        if !self.nodes.node_exists(self.cur.clone()) {
            let ghost l0 = self.nodes;
            self.nodes.init_node(self.cur.clone());
            proof { lemma_init_map(l0, self.cur@, self.nodes); }
            let ghost l1 = self.nodes;
            self.nodes.init_children(self.cur.clone());
            proof {
                lemma_change_map(l1, self.cur@, NodeChange::NoChildren, self.nodes);
                assert(self.nodes.map() =~= m0.insert(st.cur, blank_model()));
            }
        }
        let ghost m1 = self.nodes.map();
        assert(m1 == (if m0.contains_key(st.cur) { m0 } else { m0.insert(st.cur, blank_model()) }));
        let ghost l2 = self.nodes;
        self.nodes.set_parent_indx(self.cur.clone(), self.parent.clone());
        proof { lemma_change_map(l2, st.cur, NodeChange::Parent(self.parent), self.nodes); }
        let ghost l3 = self.nodes;
        self.nodes.set_branch_level(self.cur.clone(), self.level);
        proof {
            lemma_change_map(l3, st.cur, NodeChange::BranchLevel(self.level), self.nodes);
            assert(self.nodes.map() =~= m1.insert(st.cur, NodeModel { parent: st.parent, branch_level: st.level,
                ..m1[st.cur] }));
        }
    }
}


impl Reader {
    /// Reads the SAN move `tok` (see `read_san`).
    fn san_turn(&mut self, tok: &Vec<char>, Ghost(t): Ghost<AttackTables>) -> (ok: bool)
        requires
            old(self).inv(t),
        ensures
            ok == read_san(old(self).state(), tok@, t) is Some,
            ok ==> final(self).inv(t) && final(self).state() == read_san(old(self).state(), tok@, t)->0,
    {
        let ghost st = self.state();
        if self.level >= i32::MAX {
            return false;
        }
        if !crate::levels::mainline_ok_exec(&self.cur) {
            return false;
        }
        let ghost l0 = self.nodes;
        self.nodes.push_children(self.parent.clone(), self.cur.clone());
        proof {
            lemma_change_map(l0, st.parent, NodeChange::AddChild(self.cur), self.nodes);
            assert(self.nodes.map() =~= edit(st.nodes, st.parent, with_child(st.cur)));
        }
        let ghost n1 = self.nodes.map();
        let ghost b0 = self.branch.branch_index@;
        self.branch.set_indx_value(self.level + 1, self.cur.clone());
        let tok_s = string_from_chars(tok);
        let ghost l1 = self.nodes;
        self.nodes.set_san(self.cur.clone(), tok_s);
        proof {
            lemma_change_map(l1, st.cur, NodeChange::San(tok_s), self.nodes);
            assert(self.nodes.map() =~= edit(n1, st.cur, with_san(tok@)));
        }
        let ghost n2 = self.nodes.map();
        self.comment_at = self.cur.clone();
        if !self.nodes.node_exists(self.parent.clone()) {
            return false;
        }
        let pf = self.nodes.get_fen(self.parent.clone());
        assert(pf@ == n2[st.parent].fen);
        if !crate::fen::fen_valid(pf.as_str()) {
            return false;
        }
        let ghost pfv = pf@;
        self.game.setup_fen(pf);
        let ghost g1 = self.game;
        assert(fen_setup(g1, pfv, t));
        let cf = crate::pgnsearch::castle_form_exec(tok, true);
        let cs = string_from_chars(&cf);
        let mv = self.game.make_san_move_checked(cs.as_str());
        let ghost g2 = self.game;
        proof {
            let b = choose|b: Board| #[trigger] fen_setup(b, pfv, t);
            lemma_wf_unique(g1, b);
            lemma_legal_congruent(g1, b);
        }
        if mv.movim.move_int == 0 {
            proof {
                let b = choose|b: Board| #[trigger] fen_setup(b, pfv, t);
                let legal = legal_moves(b);
                let i = san_pick(legal, b.next_move, cf@);
                if st.moves < MAX_GAME_LINE && b.fifty_move < i32::MAX && b.full_moves < i32::MAX && san_readable(
                    legal, cf@) && 0 <= i {
                    assert(can_make(g1));
                    assert(legal[i].move_int == 0);
                }
                assert(fen_after_san(pfv, cf@, st.moves, t) is None);
            }
            return false;
        }
        let fen = self.game.get_fen_position();
        proof {
            let b = choose|b: Board| #[trigger] fen_setup(b, pfv, t);
            let legal = legal_moves(b);
            let i = san_pick(legal, b.next_move, cf@);
            assert(can_make(g1) && san_readable(legal, cf@) && 0 <= i);
            assert(played(g1, legal[i], g2));
            assert(fen@ == fen_text(g2));
            assert(fen_after_san(pfv, cf@, st.moves, t) == Some(fen@));
        }
        let ghost l2 = self.nodes;
        self.nodes.set_fen(self.cur.clone(), fen);
        proof {
            lemma_change_map(l2, st.cur, NodeChange::Fen(fen), self.nodes);
            assert(self.nodes.map() =~= edit(n2, st.cur, with_fen(fen@)));
        }
        self.parent = self.cur.clone();
        self.cur = get_next_mainline_indx(self.cur.clone());
        self.starts = false;
        proof {
            assert(self.branch.branch_index@.map_values(|s: String| s@) =~= st.branch.insert((st.level + 1) as i32,
                st.cur));
        }
        true
    }
}


impl Reader {
    /// Reads `(` (see `open_variation`).
    fn open_turn(&mut self, Ghost(t): Ghost<AttackTables>) -> (ok: bool)
        requires
            old(self).inv(t),
        ensures
            ok == open_variation(old(self).state()) is Some,
            ok ==> final(self).inv(t) && final(self).state() == open_variation(old(self).state())->0,
    {
        broadcast use vstd::std_specs::hash::group_hash_axioms;
        let ghost st = self.state();
        if self.level >= i32::MAX {
            return false;
        }
        let lv = self.level + 1;
        let idx = match self.branch.branch_index.get(&lv) {
            Some(s) => s.clone(),
            None => {
                return false;
            },
        };
        assert(idx@ == st.branch[lv]);
        let ghost idxv = idx@;
        let parent = self.nodes.get_parent_indx(idx, self.parent.clone());
        assert(parent@ == (if st.nodes.contains_key(idxv) { st.nodes[idxv].parent } else { seq![] }));
        let n = self.nodes.get_children_length(parent.clone());
        proof {
            if st.nodes.contains_key(parent@) {
                let p = self.nodes.pos(parent@);
                assert(st.nodes[parent@].children.len() == self.nodes.nodes@[p].1.children@.len());
            }
        }
        assert(n as int == (if st.nodes.contains_key(parent@) { (st.nodes[parent@].children.len() as i32) as int } else {
            0
        }));
        if n == 0 && !crate::levels::mainline_ok_exec(&parent) {
            return false;
        }
        let cur = crate::levels::get_next_sibling_indx(parent.clone(), n);
        assert(sibling_index(parent@, n as int) == Some(cur@));
        self.parent = parent;
        self.comment_at = cur.clone();
        self.cur = cur;
        self.level = lv;
        self.starts = true;
        proof {
            let s2 = open_variation(st)->0;
            assert(self.state().nodes == s2.nodes);
            assert(self.state().parent == s2.parent);
            assert(self.state().cur == s2.cur);
            assert(self.state().comment_at == s2.comment_at);
            assert(self.state().level == s2.level);
            assert(self.state().branch == s2.branch);
            assert(self.state().moves == s2.moves);
        }
        true
    }

    /// Reads `)` (see `close_variation`).
    fn close_turn(&mut self, Ghost(t): Ghost<AttackTables>) -> (ok: bool)
        requires
            old(self).inv(t),
        ensures
            ok == close_variation(old(self).state()) is Some,
            ok ==> final(self).inv(t) && final(self).state() == close_variation(old(self).state())->0,
    {
        broadcast use vstd::std_specs::hash::group_hash_axioms;
        let ghost st = self.state();
        let parent = match self.branch.branch_index.get(&self.level) {
            Some(s) => s.clone(),
            None => {
                return false;
            },
        };
        assert(parent@ == st.branch[self.level]);
        if !crate::levels::mainline_ok_exec(&parent) {
            return false;
        }
        let cur = get_next_mainline_indx(parent.clone());
        self.parent = parent;
        self.comment_at = cur.clone();
        self.cur = cur;
        self.level = self.level - 1;
        self.starts = true;
        true
    }
}


fn is_move_number_exec(t: &Vec<char>) -> (r: bool)
    ensures
        r == is_move_number(t@),
{
    if t.len() == 0 {
        return false;
    }
    if '1' <= t[0] && t[0] <= '9' {
        return true;
    }
    let mut i: usize = 0;
    while i < t.len()
        invariant
            i <= t.len(),
            t.len() > 0,
            !('1' <= t@[0] <= '9'),
            forall|j: int| 0 <= j < i ==> t@[j] == '.',
        decreases t.len() - i,
    {
        if t[i] != '.' {
            assert(!all_dots(t@)) by {
                assert(t@[i as int] != '.');
            }
            return false;
        }
        i = i + 1;
    }
    true
}

fn is_end_marker_exec(t: &Vec<char>) -> (r: bool)
    ensures
        r == is_end_marker(t@),
{
    crate::pgnsearch::is_text(t, "*") || crate::pgnsearch::is_text(t, "1-0") || crate::pgnsearch::is_text(t, "0-1")
        || crate::pgnsearch::is_text(t, "1/2-1/2")
}

/// The words `ts[a..b]`, each after a space.
fn comment_words(ts: &Vec<Vec<char>>, a: usize, b: usize, Ghost(tss): Ghost<Seq<Seq<char>>>) -> (r: Vec<char>)
    requires
        a <= b <= ts.len(),
        ts.len() == tss.len(),
        forall|j: int| 0 <= j < ts.len() ==> (#[trigger] ts[j])@ == tss[j],
    ensures
        r@ == comment_text(tss, a as int, b as int),
{
    let mut r: Vec<char> = Vec::new();
    let mut k = a;
    while k < b
        invariant
            a <= k <= b,
            b <= ts.len(),
            ts.len() == tss.len(),
            forall|j: int| 0 <= j < ts.len() ==> (#[trigger] ts[j])@ == tss[j],
            r@ == comment_text(tss, a as int, k as int),
        decreases b - k,
    {
        r.push(' ');
        crate::strutil::push_all(&mut r, &ts[k]);
        assert(ts[k as int]@ == tss[k as int]);
        k = k + 1;
    }
    r
}

impl Reader {
    /// Reads the words `ts` (see `read_from`).
    fn read_words(&mut self, ts: &Vec<Vec<char>>, Ghost(tss): Ghost<Seq<Seq<char>>>, Ghost(t): Ghost<AttackTables>)
        -> (ok: bool)
        requires
            old(self).inv(t),
            ts.len() == tss.len(),
            forall|j: int| 0 <= j < ts.len() ==> (#[trigger] ts[j])@ == tss[j],
        ensures
            ok == read_from(old(self).state(), tss, 0, t) is Some,
            ok ==> final(self).inv(t) && final(self).state() == read_from(old(self).state(), tss, 0, t)->0,
    {
        let ghost res = read_from(old(self).state(), tss, 0, t);
        let mut i: usize = 0;
        while i < ts.len()
            invariant
                i <= ts.len(),
                self.inv(t),
                ts.len() == tss.len(),
                forall|j: int| 0 <= j < ts.len() ==> (#[trigger] ts[j])@ == tss[j],
                read_from(self.state(), tss, i as int, t) == res,
                res == read_from(old(self).state(), tss, 0, t),
            decreases ts.len() - i,
        {
            let ghost st0 = self.state();
            proof { lemma_read_step_moves_on(st0, tss, i as int, t); }
            self.prepare_turn(Ghost(t));
            let ghost st = self.state();
            let tok = &ts[i];
            assert(tok@ == tss[i as int]);
            if is_end_marker_exec(tok) {
                self.starts = false;
                assert(read_step(st0, tss, i as int, t) == Some((self.state(), i + 1)));
                i = i + 1;
            } else if tok.len() > 0 && tok[0] == '$' {
                let ghost l0 = self.nodes;
                let nag = string_from_chars(tok);
                self.nodes.set_nag(self.comment_at.clone(), nag);
                proof {
                    lemma_change_map(l0, st.comment_at, NodeChange::Nag(nag), self.nodes);
                    assert(self.nodes.map() =~= edit(st.nodes, st.comment_at, with_nag(tok@)));
                }
                self.starts = false;
                assert(read_step(st0, tss, i as int, t) == Some((self.state(), i + 1)));
                i = i + 1;
            } else if is_move_number_exec(tok) {
                self.starts = false;
                assert(read_step(st0, tss, i as int, t) == Some((self.state(), i + 1)));
                i = i + 1;
            } else if crate::pgnsearch::is_one(tok, '{') {
                proof { lemma_close_brace(tss, i + 1); }
                match crate::pgnsearch::close_brace_exec(ts, i + 1, Ghost(tss)) {
                    None => {
                        assert(read_step(st0, tss, i as int, t) is None);
                        return false;
                    },
                    Some(j) => {
                        let words = comment_words(ts, i + 1, j, Ghost(tss));
                        let c = string_from_chars(&trim_chars(&words));
                        let ghost l0 = self.nodes;
                        if self.starts {
                            self.nodes.set_start_comment(self.comment_at.clone(), c);
                            proof {
                                lemma_change_map(l0, st.comment_at, NodeChange::StartComment(c), self.nodes);
                                assert(self.nodes.map() =~= edit(st.nodes, st.comment_at, with_start_comment(c@)));
                            }
                        } else {
                            self.nodes.set_comment(self.comment_at.clone(), c);
                            proof {
                                lemma_change_map(l0, st.comment_at, NodeChange::Comment(c), self.nodes);
                                assert(self.nodes.map() =~= edit(st.nodes, st.comment_at, with_comment(c@)));
                            }
                        }
                        self.starts = false;
                        assert(read_step(st0, tss, i as int, t) == Some((self.state(), j + 1)));
                        i = j + 1;
                    },
                }
            } else if tok.len() == 0 || tok[0] >= '\u{80}' {
                assert(read_step(st0, tss, i as int, t) is None);
                return false;
            } else if ('a' <= tok[0] && tok[0] <= 'h') || tok[0] == 'R' || tok[0] == 'B' || tok[0] == 'N' || tok[0]
                == 'Q' || tok[0] == 'K' || tok[0] == 'O' || tok[0] == '0' {
                if !self.san_turn(tok, Ghost(t)) {
                    assert(read_step(st0, tss, i as int, t) is None);
                    return false;
                }
                assert(read_step(st0, tss, i as int, t) == Some((self.state(), i + 1)));
                i = i + 1;
            } else if crate::pgnsearch::is_one(tok, '(') {
                if !self.open_turn(Ghost(t)) {
                    assert(read_step(st0, tss, i as int, t) is None);
                    return false;
                }
                assert(read_step(st0, tss, i as int, t) == Some((self.state(), i + 1)));
                i = i + 1;
            } else if crate::pgnsearch::is_one(tok, ')') {
                if !self.close_turn(Ghost(t)) {
                    assert(read_step(st0, tss, i as int, t) is None);
                    return false;
                }
                assert(read_step(st0, tss, i as int, t) == Some((self.state(), i + 1)));
                i = i + 1;
            } else {
                assert(read_step(st0, tss, i as int, t) is None);
                return false;
            }
        }
        true
    }
}


/// The reader before the first word, for the FEN `fen`.
fn start_reader(fen: String) -> (r: Reader)
    requires
        fen_ok(fen@),
    ensures
        r.inv(r.game.tables),
        r.game.tables.wf(),
        r.state() == first_state(fen@),
{
    let mut game = crate::wchess::new_board();
    let mut nodes = ListNodes::new();
    let ghost l0 = nodes;
    nodes.init_node(root_node());
    proof { lemma_init_map(l0, seq!['1', 'z'], nodes); }
    let ghost l1 = nodes;
    nodes.init_branch_level(root_node(), 0);
    proof { lemma_change_map(l1, seq!['1', 'z'], NodeChange::BranchLevel(0), nodes); }
    let ghost l2 = nodes;
    nodes.init_children(root_node());
    proof { lemma_change_map(l2, seq!['1', 'z'], NodeChange::NoChildren, nodes); }
    let ghost l3 = nodes;
    let fen2 = string_from_chars(&chars_of(fen.as_str()));
    nodes.init_fen(root_node(), fen2);
    proof {
        lemma_change_map(l3, seq!['1', 'z'], NodeChange::Fen(fen2), nodes);
        assert(nodes.map() =~= first_state(fen@).nodes);
    }
    game.setup_fen(fen);
    let mut second: Vec<char> = Vec::new();
    second.push('2');
    second.push('z');
    assert(second@ =~= seq!['2', 'z']);
    let r = Reader {
        nodes,
        parent: root_node(),
        cur: string_from_chars(&second),
        comment_at: string_from_chars(&second),
        level: 0,
        branch: BranchIndexNodes::new(),
        starts: true,
        game,
    };
    proof {
        let s = r.state();
        let f = first_state(fen@);
        assert(r.branch.branch_index@.map_values(|s: String| s@) =~= Map::<i32, Seq<char>>::empty());
        assert(s.nodes == f.nodes);
        assert(s.parent == f.parent);
        assert(s.cur == f.cur);
        assert(s.comment_at == f.comment_at);
        assert(s.branch == f.branch);
        assert(s.moves == f.moves);
    }
    r
}

/// The end of reading (see `finish`).
fn finish_nodes(l: ListNodes) -> (r: ListNodes)
    requires
        l.wf(),
    ensures
        r.wf(),
        r.map() == finish(l.map()),
{
    let ghost m = l.map();
    let mut nodes = l;
    let mut first: Vec<char> = Vec::new();
    first.push('2');
    first.push('z');
    assert(first@ =~= seq!['2', 'z']);
    let fc = nodes.get_start_comment(string_from_chars(&first));
    if !fc.as_str().is_empty() {
        let ghost l4 = nodes;
        nodes.set_comment(root_node(), fc);
        proof { lemma_change_map(l4, seq!['1', 'z'], NodeChange::Comment(fc), nodes); }
        let ghost l5 = nodes;
        let empty = String::new();
        nodes.set_start_comment(string_from_chars(&first), empty);
        proof {
            lemma_change_map(l5, seq!['2', 'z'], NodeChange::StartComment(empty), nodes);
            assert(nodes.map() =~= edit(edit(m, seq!['1', 'z'], with_comment(fc@)), seq!['2', 'z'],
                with_start_comment(seq![])));
        }
    }
    let out = keep_moves(nodes);
    assert(out.map() =~= finish(m));
    out
}

/// Reads the move text of a game, from the FEN `start_fen` (the initial
/// position when it is not given), into its move tree: each move under its
/// index with the position after it, its NAG and comments, variations
/// below the move they stand beside (see `nodes_read`).  Gives None where
/// the text cannot be read: a FEN or move that cannot be played, an
/// unclosed comment, an unmatched parenthesis, a word that is no move.
pub fn pgn_moves_to_nodes(pgn_moves: String, start_fen: String) -> (r: Option<ListNodes>)
    ensures
        exists|t: AttackTables| #[trigger] t.wf() && match r {
            Some(l) => l.wf() && nodes_read(pgn_moves@, start_fen@, t) == Some(l.map()),
            None => nodes_read(pgn_moves@, start_fen@, t) is None,
        },
{
    let sf = chars_of(start_fen.as_str());
    let given = sf.len() >= 2 || (sf.len() == 1 && sf[0] >= '\u{80}');
    assert(given == more_than_one_byte(start_fen@));
    let fen: String = if given { string_from_chars(&sf) } else { DEFAULT_POSITION.to_owned() };
    assert(fen@ == start_fen_of(start_fen@));
    if !crate::fen::fen_valid(fen.as_str()) {
        let b = crate::wchess::new_board();
        assert(b.tables.wf());
        return None;
    }
    let mut reader = start_reader(fen);
    let ghost t = reader.game.tables;
    let text = chars_of(pgn_moves.as_str());
    let mut words = split_chars(&text, ' ');
    if words.len() == 1 && words[0].len() == 0 {
        assert(words[0]@ =~= Seq::<char>::empty());
        assert(pieces(pgn_moves@, ' ')[0] == Seq::<char>::empty());
        assert(pieces(pgn_moves@, ' ') =~= seq![Seq::<char>::empty()]);
        words = Vec::new();
    }
    let ghost ws = move_words(pgn_moves@);
    proof {
        if pieces(pgn_moves@, ' ') == seq![Seq::<char>::empty()] {
            assert(words.len() == 0);
        }
    }
    assert(words.len() == ws.len());
    if !reader.read_words(&words, Ghost(ws), Ghost(t)) {
        return None;
    }
    let out = finish_nodes(reader.nodes);
    Some(out)
}


/// The result code of a result tag: "1" white won, "2" a draw, "3" black
/// won, "4" otherwise.
pub open spec fn result_code(res: Seq<char>) -> Seq<char> {
    if res == "1-0"@ {
        "1"@
    } else if res == "1/2-1/2"@ {
        "2"@
    } else if res == "0-1"@ {
        "3"@
    } else {
        "4"@
    }
}

/// The result code of a result tag (see `result_code`).
pub fn res_to_enum(res: String) -> (r: String)
    ensures
        r@ == result_code(res@),
{
    let c = chars_of(res.as_str());
    if crate::pgnsearch::is_text(&c, "1-0") {
        "1".to_owned()
    } else if crate::pgnsearch::is_text(&c, "1/2-1/2") {
        "2".to_owned()
    } else if crate::pgnsearch::is_text(&c, "0-1") {
        "3".to_owned()
    } else {
        "4".to_owned()
    }
}

/// The tags of a game as the editor keeps them: the fields of the game
/// read, its result as a code.
pub open spec fn info_of(g: crate::pgnglobs::PgnGame, i: crate::pgnglobs::GameInfo) -> bool {
    &&& i.white@ == g.white@ && i.elow@ == g.elow@ && i.black@ == g.black@ && i.elob@ == g.elob@
    &&& i.res@ == result_code(g.res@)
    &&& i.event@ == g.event@ && i.site@ == g.site@ && i.round@ == g.round@ && i.date@ == g.date@
    &&& i.fen@ == g.fen@ && i.eco@ == g.eco@
    &&& i.tags@ == g.tags@
}

/// Reads the game of a database entry: its tags go to the entry's game
/// information, and its moves give the move tree (see `game_read` and
/// `pgn_moves_to_nodes`).
pub fn read_nodes_from_file(entry: &mut crate::pgnglobs::DbEntry) -> (r: Option<ListNodes>)
    requires
        crate::pgntext::fields_quoted(pieces(old(entry).pgn@, '\n')),
    ensures
        final(entry).pgn@ == old(entry).pgn@,
        final(entry).id == old(entry).id,
        exists|g: crate::pgnglobs::PgnGame, t: AttackTables| #![trigger crate::pgntext::game_read(old(entry).pgn@, g), t.wf()]
            {
            &&& crate::pgntext::game_read(old(entry).pgn@, g)
            &&& info_of(g, final(entry).game_info)
            &&& t.wf()
            &&& match r {
                Some(l) => l.wf() && nodes_read(g.moves@, g.fen@, t) == Some(l.map()),
                None => nodes_read(g.moves@, g.fen@, t) is None,
            }
        },
{
    let data = crate::pgntext::parse_pgn_data(&mut entry.pgn);
    let ghost g = data;
    entry.game_info.white = data.white;
    entry.game_info.elow = data.elow;
    entry.game_info.black = data.black;
    entry.game_info.elob = data.elob;
    entry.game_info.res = res_to_enum(data.res);
    entry.game_info.event = data.event;
    entry.game_info.site = data.site;
    entry.game_info.round = data.round;
    entry.game_info.date = data.date;
    entry.game_info.fen = data.fen.clone();
    entry.game_info.tags = data.tags;
    entry.game_info.eco = data.eco;
    let r = pgn_moves_to_nodes(data.moves, data.fen);
    assert(info_of(g, entry.game_info));
    r
}

}
