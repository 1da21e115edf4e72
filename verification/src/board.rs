use vstd::prelude::*;
use crate::bitops::{has_bit, lemma_bit_xor, lemma_bit_single, lemma_bits_ext, lemma_bit_or, lemma_bit_zero};
use crate::globs::{valid_code, is_piece, is_white_piece, is_black_piece, rank_of, MAX_GAME_LINE, MAX_PLY, MAX_MOV_BUFF};
use crate::tables::data_init;
use crate::movim::Movim;
use crate::gameline::GameLineRecord;
use crate::tables::AttackTables;
use crate::movim::{rankmoves_spec, filemoves_spec, a8h1moves_spec, a1h8moves_spec,
    mov_rankmoves, mov_filemoves, mov_slide_a8h1_moves, mov_slide_a1h8_moves};
use crate::bitops::{first_one, lemma_clear_bit_smaller};

verus! {

pub struct Board {
    pub white_king: u64,
    pub white_queens: u64,
    pub white_rooks: u64,
    pub white_bishops: u64,
    pub white_knights: u64,
    pub white_pawns: u64,
    pub black_king: u64,
    pub black_queens: u64,
    pub black_rooks: u64,
    pub black_bishops: u64,
    pub black_knights: u64,
    pub black_pawns: u64,
    pub white_pieces: u64,
    pub black_pieces: u64,
    pub occupied_squares: u64,
    pub next_move: u8,
    pub castle_white: u8,
    pub castle_black: u8,
    pub ep_square: i32,
    pub fifty_move: i32,
    pub full_moves: i32,
    pub square: [i32; 64],
    pub view_rotated: bool,
    pub move_buffer: Vec<Movim>,
    pub move_buf_len: Vec<usize>,
    pub end_of_game: usize,
    pub end_of_search: usize,
    pub game_line: Vec<GameLineRecord>,
    pub tables: AttackTables,
}

/// `x` with bit `sq` flipped.
pub proof fn lemma_toggle(x: u64, sq: u64, i: int)
    requires
        sq < 64,
        0 <= i < 64,
    ensures
        has_bit(x ^ (1u64 << sq), i) == (has_bit(x, i) != (i == sq)),
{
    lemma_bit_xor(x, 1u64 << sq, i);
    lemma_bit_single(sq, i);
}


pub open spec fn is_pawn_code(p: int) -> bool {
    p == 1 || p == 9
}

pub open spec fn is_king_code(p: int) -> bool {
    p == 2 || p == 10
}

/// The promotion pieces of the pawn's colour.
pub open spec fn promo_ok(p: int, pr: int) -> bool {
    if p == 1 {
        pr == 3 || pr == 5 || pr == 6 || pr == 7
    } else {
        pr == 11 || pr == 13 || pr == 14 || pr == 15
    }
}

/// A pawn capturing en passant.
pub open spec fn is_ep_move(m: Movim) -> bool {
    is_pawn_code(m.piec() as int) && m.capt() != 0 && m.spec_is_enpassant()
}

/// A king castling.
pub open spec fn is_castle_move(m: Movim) -> bool {
    is_king_code(m.piec() as int) && m.spec_is_castle()
}

/// The square of the pawn taken en passant.
pub open spec fn ep_victim(m: Movim) -> int {
    if m.piec() == 1 { m.to_sq() - 8 } else { m.to_sq() + 8 }
}

pub open spec fn opp_pawn(p: int) -> int {
    if p == 1 { 9 } else { 1 }
}

/// Where the rook starts when castling.
pub open spec fn rook_from(m: Movim) -> int {
    if m.piec() == 2 {
        if m.spec_is_castle_oo() { 7 } else { 0 }
    } else {
        if m.spec_is_castle_oo() { 63 } else { 56 }
    }
}

/// Where the rook ends when castling.
pub open spec fn rook_to(m: Movim) -> int {
    if m.piec() == 2 {
        if m.spec_is_castle_oo() { 5 } else { 3 }
    } else {
        if m.spec_is_castle_oo() { 61 } else { 59 }
    }
}

pub open spec fn rook_code(p: int) -> int {
    if p == 2 { 6 } else { 14 }
}

/// The piece that stands on the destination after the move.
pub open spec fn lands(m: Movim) -> int {
    if is_pawn_code(m.piec() as int) && m.spec_is_promotion() { m.prom() as int } else { m.piec() as int }
}

/// The move fits the squares: its piece stands on its origin, its captured
/// piece on its destination (or, en passant, beside it), and a castling king
/// and rook stand on their home squares with the squares they go to empty.
pub open spec fn move_ok_sq(sq: Seq<i32>, m: Movim) -> bool {
    let p = m.piec() as int;
    let f = m.from_sq() as int;
    let t = m.to_sq() as int;
    &&& is_piece(p)
    &&& f != t
    &&& sq[f] == p
    &&& is_pawn_code(p) && m.spec_is_promotion() ==> promo_ok(p, m.prom() as int)
    &&& if is_ep_move(m) {
        &&& 0 <= ep_victim(m) < 64
        &&& ep_victim(m) != f
        &&& sq[ep_victim(m)] == opp_pawn(p)
        &&& sq[t] == 0
    } else if is_castle_move(m) {
        &&& m.capt() == 0
        &&& f == (if p == 2 { 4int } else { 60int })
        &&& t == (if p == 2 { if m.spec_is_castle_oo() { 6int } else { 2int } } else { if m.spec_is_castle_oo() { 62int } else { 58int } })
        &&& sq[t] == 0
        &&& sq[rook_from(m)] == rook_code(p)
        &&& sq[rook_to(m)] == 0
    } else {
        sq[t] == m.capt()
    }
}

/// The move can be taken back from these squares.
pub open spec fn undo_ok_sq(sq: Seq<i32>, m: Movim) -> bool {
    let p = m.piec() as int;
    let f = m.from_sq() as int;
    let t = m.to_sq() as int;
    &&& is_piece(p)
    &&& f != t
    &&& sq[f] == 0
    &&& sq[t] == lands(m)
    &&& is_pawn_code(p) && m.spec_is_promotion() ==> promo_ok(p, m.prom() as int)
    &&& if is_ep_move(m) {
        &&& 0 <= ep_victim(m) < 64
        &&& ep_victim(m) != f
        &&& ep_victim(m) != t
        &&& sq[ep_victim(m)] == 0
    } else if is_castle_move(m) {
        &&& m.capt() == 0
        &&& f == (if p == 2 { 4int } else { 60int })
        &&& t == (if p == 2 { if m.spec_is_castle_oo() { 6int } else { 2int } } else { if m.spec_is_castle_oo() { 62int } else { 58int } })
        &&& sq[rook_from(m)] == 0
        &&& sq[rook_to(m)] == rook_code(p)
    } else {
        true
    }
}

/// The squares after the move is made.
pub open spec fn squares_after_make(sq: Seq<i32>, m: Movim) -> Seq<i32> {
    let f = m.from_sq() as int;
    let t = m.to_sq() as int;
    let moved = sq.update(f, 0).update(t, lands(m) as i32);
    if is_ep_move(m) {
        moved.update(ep_victim(m), 0)
    } else if is_castle_move(m) {
        moved.update(rook_from(m), 0).update(rook_to(m), rook_code(m.piec() as int) as i32)
    } else {
        moved
    }
}

/// The squares after the move is taken back.
pub open spec fn squares_after_unmake(sq: Seq<i32>, m: Movim) -> Seq<i32> {
    let f = m.from_sq() as int;
    let t = m.to_sq() as int;
    let c = m.capt() as int;
    let moved = sq.update(t, 0).update(f, m.piec() as i32);
    if is_ep_move(m) {
        moved.update(ep_victim(m), opp_pawn(m.piec() as int) as i32)
    } else if is_castle_move(m) {
        moved.update(rook_to(m), 0).update(rook_from(m), rook_code(m.piec() as int) as i32)
    } else if c != 0 && is_piece(c) {
        moved.update(t, c as i32)
    } else {
        moved
    }
}

/// En-passant square after the move: the square a pawn skipped with a double step.
pub open spec fn ep_after(m: Movim) -> i32 {
    let p = m.piec() as int;
    let f = m.from_sq() as int;
    let t = m.to_sq() as int;
    if p == 1 && rank_of(f) == 2 && rank_of(t) == 4 {
        (f + 8) as i32
    } else if p == 9 && rank_of(f) == 7 && rank_of(t) == 5 {
        (f - 8) as i32
    } else {
        0
    }
}

/// Half-move clock after the move: reset by pawn moves and captures.
pub open spec fn fifty_after(fifty: i32, m: Movim) -> i32 {
    if is_pawn_code(m.piec() as int) || m.capt() != 0 { 0 } else { (fifty + 1) as i32 }
}

/// Move counter after the move: black's moves count.
pub open spec fn full_after(full: i32, m: Movim) -> i32 {
    if m.piec() >= 8 { (full + 1) as i32 } else { full }
}

/// White's castling rights after the move.
pub open spec fn cw_after(cw: u8, m: Movim) -> u8 {
    let p = m.piec();
    let f = m.from_sq();
    let t = m.to_sq();
    let a = if p == 2 { 0u8 } else if p == 6 && f == 0 { cw & 0xfdu8 } else if p == 6 && f == 7 { cw & 0xfeu8 } else { cw };
    if m.capt() == 6 && t == 0 { a & 0xfdu8 } else if m.capt() == 6 && t == 7 { a & 0xfeu8 } else { a }
}

/// Black's castling rights after the move.
pub open spec fn cb_after(cb: u8, m: Movim) -> u8 {
    let p = m.piec();
    let f = m.from_sq();
    let t = m.to_sq();
    let a = if p == 10 { 0u8 } else if p == 14 && f == 56 { cb & 0xfdu8 } else if p == 14 && f == 63 { cb & 0xfeu8 } else { cb };
    if m.capt() == 14 && t == 56 { a & 0xfdu8 } else if m.capt() == 14 && t == 63 { a & 0xfeu8 } else { a }
}

/// The record kept for taking the move back.
pub open spec fn record_of(b: Board, m: Movim) -> GameLineRecord {
    GameLineRecord {
        movim: m,
        castle_white: b.castle_white,
        castle_black: b.castle_black,
        ep_square: b.ep_square,
        fifty_move: b.fifty_move,
        full_moves: b.full_moves,
    }
}

/// What `make_move` leaves behind.
pub open spec fn make_move_post(b: Board, m: Movim, n: Board) -> bool {
    &&& n.wf()
    &&& n.square@ == squares_after_make(b.square@, m)
    &&& n.next_move == b.next_move ^ 1u8
    &&& n.castle_white == cw_after(b.castle_white, m)
    &&& n.castle_black == cb_after(b.castle_black, m)
    &&& n.ep_square == ep_after(m)
    &&& n.fifty_move == fifty_after(b.fifty_move, m)
    &&& n.full_moves == full_after(b.full_moves, m)
    &&& n.end_of_search == b.end_of_search + 1
    &&& n.game_line@ == b.game_line@.update(b.end_of_search as int, record_of(b, m))
    &&& n.view_rotated == b.view_rotated
    &&& n.move_buffer@ == b.move_buffer@
    &&& n.move_buf_len@ == b.move_buf_len@
    &&& n.end_of_game == b.end_of_game
    &&& n.tables == b.tables
}

/// `n` is the position that `m` leads to from `b`: its pieces, side to
/// move, castling rights and en-passant square (the clocks and the
/// bookkeeping aside).
pub open spec fn pos_after(b: Board, m: Movim, n: Board) -> bool {
    &&& n.wf()
    &&& n.square@ == squares_after_make(b.square@, m)
    &&& n.next_move == b.next_move ^ 1u8
    &&& n.castle_white == cw_after(b.castle_white, m)
    &&& n.castle_black == cb_after(b.castle_black, m)
    &&& n.ep_square == ep_after(m)
    &&& n.tables == b.tables
}

/// The piece code on square `i` in the initial position.
pub open spec fn initial_code(i: int) -> i32 {
    if i == 0 || i == 7 { 6 }
    else if i == 1 || i == 6 { 3 }
    else if i == 2 || i == 5 { 5 }
    else if i == 3 { 7 }
    else if i == 4 { 2 }
    else if 8 <= i < 16 { 1 }
    else if 48 <= i < 56 { 9 }
    else if i == 56 || i == 63 { 14 }
    else if i == 57 || i == 62 { 11 }
    else if i == 58 || i == 61 { 13 }
    else if i == 59 { 15 }
    else if i == 60 { 10 }
    else { 0 }
}

/// What `unmake_move` leaves behind.
pub open spec fn unmake_move_post(b: Board, m: Movim, n: Board) -> bool {
    let rec = b.game_line[b.end_of_search - 1];
    &&& n.wf()
    &&& n.square@ == squares_after_unmake(b.square@, m)
    &&& n.next_move == b.next_move ^ 1u8
    &&& n.castle_white == rec.castle_white
    &&& n.castle_black == rec.castle_black
    &&& n.ep_square == rec.ep_square
    &&& n.fifty_move == rec.fifty_move
    &&& n.full_moves == rec.full_moves
    &&& n.end_of_search == b.end_of_search - 1
    &&& n.game_line@ == b.game_line@
    &&& n.view_rotated == b.view_rotated
    &&& n.move_buffer@ == b.move_buffer@
    &&& n.move_buf_len@ == b.move_buf_len@
    &&& n.end_of_game == b.end_of_game
    &&& n.tables == b.tables
}

impl Board {
    /// The bitboard that holds the pieces with code `k`.
    pub open spec fn bb_of(self, k: int) -> u64 {
        if k == 1 { self.white_pawns } else if k == 2 { self.white_king }
        else if k == 3 { self.white_knights } else if k == 5 { self.white_bishops }
        else if k == 6 { self.white_rooks } else if k == 7 { self.white_queens }
        else if k == 9 { self.black_pawns } else if k == 10 { self.black_king }
        else if k == 11 { self.black_knights } else if k == 13 { self.black_bishops }
        else if k == 14 { self.black_rooks } else if k == 15 { self.black_queens }
        else { 0 }
    }

    /// The bitboards agree with the square array.
    pub open spec fn wf_pieces(self) -> bool {
        &&& forall|i: int| 0 <= i < 64 ==> valid_code(#[trigger] self.square[i] as int)
        &&& forall|k: int, i: int|
            is_piece(k) && 0 <= i < 64 ==> (#[trigger] has_bit(self.bb_of(k), i) <==> self.square[i] == k)
        &&& forall|i: int|
            0 <= i < 64 ==> (#[trigger] has_bit(self.white_pieces, i) <==> is_white_piece(self.square[i] as int))
        &&& forall|i: int|
            0 <= i < 64 ==> (#[trigger] has_bit(self.black_pieces, i) <==> is_black_piece(self.square[i] as int))
        &&& forall|i: int|
            0 <= i < 64 ==> (#[trigger] has_bit(self.occupied_squares, i) <==> self.square[i] != 0)
    }

    /// The bookkeeping vectors have their fixed sizes, the tables are built,
    /// and every en-passant square, current or kept, is a square.
    pub open spec fn wf_meta(self) -> bool {
        &&& self.game_line.len() == MAX_GAME_LINE
        &&& self.move_buf_len.len() == MAX_PLY
        &&& self.end_of_search <= MAX_GAME_LINE
        &&& self.tables.wf()
        &&& 0 <= self.ep_square < 64
        &&& forall|i: int| 0 <= i < self.game_line.len() ==> 0 <= (#[trigger] self.game_line[i]).ep_square < 64
    }

    pub open spec fn wf(self) -> bool {
        self.wf_pieces() && self.wf_meta()
    }

    /// All fields but the piece placement are equal.
    pub open spec fn same_but_pieces(self, o: Board) -> bool {
        &&& self.next_move == o.next_move
        &&& self.castle_white == o.castle_white
        &&& self.castle_black == o.castle_black
        &&& self.ep_square == o.ep_square
        &&& self.fifty_move == o.fifty_move
        &&& self.full_moves == o.full_moves
        &&& self.view_rotated == o.view_rotated
        &&& self.move_buffer@ == o.move_buffer@
        &&& self.move_buf_len@ == o.move_buf_len@
        &&& self.end_of_game == o.end_of_game
        &&& self.end_of_search == o.end_of_search
        &&& self.game_line@ == o.game_line@
        &&& self.tables == o.tables
    }

    pub open spec fn move_ok(self, m: Movim) -> bool {
        move_ok_sq(self.square@, m)
    }

    pub open spec fn undo_ok(self, m: Movim) -> bool {
        self.end_of_search > 0 && undo_ok_sq(self.square@, m)
    }

    /// Plays a move that fits the position, keeping what it overwrites in the
    /// game line so that `unmake_move` can take it back.
    pub fn make_move(&mut self, movim: Movim)
        requires
            old(self).wf(),
            old(self).move_ok(movim),
            old(self).end_of_search < MAX_GAME_LINE,
            old(self).fifty_move < i32::MAX,
            old(self).full_moves < i32::MAX,
        ensures
            make_move_post(*old(self), movim, *final(self)),
    {
        proof { movim.lemma_masks(); }
        let from = movim.get_from() as usize;
        let to = movim.get_to_sq() as usize;
        let piece = movim.get_piec();
        let captured = movim.get_capt();
        let rec = GameLineRecord {
            movim: movim,
            castle_white: self.castle_white,
            castle_black: self.castle_black,
            ep_square: self.ep_square,
            fifty_move: self.fifty_move,
            full_moves: self.full_moves,
        };
        let ghost b0 = *self;
        let pawn = piece == 1 || piece == 9;
        let king = piece == 2 || piece == 10;
        self.remove_piece(from);
        if pawn && captured != 0 && movim.is_enpassant() {
            let victim = if piece == 1 { to - 8 } else { to + 8 };
            self.remove_piece(victim);
        } else if captured != 0 {
            self.remove_piece(to);
        }
        let landing: i32 = if pawn && movim.is_promotion() { movim.get_prom() as i32 } else { piece as i32 };
        self.add_piece(to, landing);
        if king && movim.is_castle() {
            let oo = movim.is_castle_oo();
            let rf: usize = if piece == 2 { if oo { 7 } else { 0 } } else { if oo { 63 } else { 56 } };
            let rt: usize = if piece == 2 { if oo { 5 } else { 3 } } else { if oo { 61 } else { 59 } };
            let rk: i32 = if piece == 2 { 6 } else { 14 };
            self.remove_piece(rf);
            self.add_piece(rt, rk);
        }
        let ghost bw = *self;
        // en passant square
        if piece == 1 && from / 8 == 1 && to / 8 == 3 {
            self.ep_square = (from + 8) as i32;
        } else if piece == 9 && from / 8 == 6 && to / 8 == 4 {
            self.ep_square = (from - 8) as i32;
        } else {
            self.ep_square = 0;
        }
        // half-move clock and move counter
        if pawn || captured != 0 {
            self.fifty_move = 0;
        } else {
            self.fifty_move = self.fifty_move + 1;
        }
        if piece >= 8 {
            self.full_moves = self.full_moves + 1;
        }
        // castling rights
        let mut cw = self.castle_white;
        if piece == 2 {
            cw = 0;
        } else if piece == 6 && from == 0 {
            cw = cw & 0xfd;
        } else if piece == 6 && from == 7 {
            cw = cw & 0xfe;
        }
        if captured == 6 && to == 0 {
            cw = cw & 0xfd;
        } else if captured == 6 && to == 7 {
            cw = cw & 0xfe;
        }
        self.castle_white = cw;
        let mut cb = self.castle_black;
        if piece == 10 {
            cb = 0;
        } else if piece == 14 && from == 56 {
            cb = cb & 0xfd;
        } else if piece == 14 && from == 63 {
            cb = cb & 0xfe;
        }
        if captured == 14 && to == 56 {
            cb = cb & 0xfd;
        } else if captured == 14 && to == 63 {
            cb = cb & 0xfe;
        }
        self.castle_black = cb;
        self.next_move = self.next_move ^ 1;
        self.game_line.set(self.end_of_search, rec);
        self.end_of_search = self.end_of_search + 1;
        proof {
            assert(self.square@ =~= squares_after_make(b0.square@, movim));
            Board::lemma_wf_frame(bw, *self);
            assert(self.castle_white == cw_after(b0.castle_white, movim));
            assert(self.castle_black == cb_after(b0.castle_black, movim));
            assert(self.ep_square == ep_after(movim));
            assert(self.fifty_move == fifty_after(b0.fifty_move, movim));
            assert(self.full_moves == full_after(b0.full_moves, movim));
            assert(self.game_line@ == b0.game_line@.update(b0.end_of_search as int, record_of(b0, movim)));
        }
    }

    /// Takes back the move made last, restoring what the game line kept.
    pub fn unmake_move(&mut self, movim: Movim)
        requires
            old(self).wf(),
            old(self).undo_ok(movim),
        ensures
            unmake_move_post(*old(self), movim, *final(self)),
    {
        proof { movim.lemma_masks(); }
        let from = movim.get_from() as usize;
        let to = movim.get_to_sq() as usize;
        let piece = movim.get_piec();
        let captured = movim.get_capt();
        let ghost b0 = *self;
        let pawn = piece == 1 || piece == 9;
        let king = piece == 2 || piece == 10;
        self.remove_piece(to);
        self.add_piece(from, piece as i32);
        if pawn && captured != 0 && movim.is_enpassant() {
            let victim = if piece == 1 { to - 8 } else { to + 8 };
            let vp: i32 = if piece == 1 { 9 } else { 1 };
            self.add_piece(victim, vp);
        } else if king && movim.is_castle() {
            let oo = movim.is_castle_oo();
            let rf: usize = if piece == 2 { if oo { 7 } else { 0 } } else { if oo { 63 } else { 56 } };
            let rt: usize = if piece == 2 { if oo { 5 } else { 3 } } else { if oo { 61 } else { 59 } };
            let rk: i32 = if piece == 2 { 6 } else { 14 };
            self.remove_piece(rt);
            self.add_piece(rf, rk);
        } else if captured != 0 && captured != 4 && captured != 8 && captured != 12 {
            self.add_piece(to, captured as i32);
        }
        let ghost bw = *self;
        self.end_of_search = self.end_of_search - 1;
        let rec = self.game_line[self.end_of_search];
        self.castle_white = rec.castle_white;
        self.castle_black = rec.castle_black;
        self.ep_square = rec.ep_square;
        self.fifty_move = rec.fifty_move;
        self.full_moves = rec.full_moves;
        self.next_move = self.next_move ^ 1;
        proof {
            assert(self.square@ =~= squares_after_unmake(b0.square@, movim));
            Board::lemma_wf_frame(bw, *self);
            assert(rec == b0.game_line[b0.end_of_search - 1]);
        }
    }

    /// Same piece placement: the square array and all the bitboards.
    pub open spec fn same_pieces(self, o: Board) -> bool {
        &&& self.square@ == o.square@
        &&& self.white_king == o.white_king
        &&& self.white_queens == o.white_queens
        &&& self.white_rooks == o.white_rooks
        &&& self.white_bishops == o.white_bishops
        &&& self.white_knights == o.white_knights
        &&& self.white_pawns == o.white_pawns
        &&& self.black_king == o.black_king
        &&& self.black_queens == o.black_queens
        &&& self.black_rooks == o.black_rooks
        &&& self.black_bishops == o.black_bishops
        &&& self.black_knights == o.black_knights
        &&& self.black_pawns == o.black_pawns
        &&& self.white_pieces == o.white_pieces
        &&& self.black_pieces == o.black_pieces
        &&& self.occupied_squares == o.occupied_squares
    }

    /// The same position: pieces, side to move, castling rights, en-passant
    /// square and tables.
    pub open spec fn same_position(self, o: Board) -> bool {
        &&& self.same_pieces(o)
        &&& self.next_move == o.next_move
        &&& self.castle_white == o.castle_white
        &&& self.castle_black == o.castle_black
        &&& self.ep_square == o.ep_square
        &&& self.tables == o.tables
    }

    /// The same position and history: all but the move buffers and the
    /// game-line entries from the current one on.
    pub open spec fn same_state(self, o: Board) -> bool {
        &&& self.same_pieces(o)
        &&& self.next_move == o.next_move
        &&& self.castle_white == o.castle_white
        &&& self.castle_black == o.castle_black
        &&& self.ep_square == o.ep_square
        &&& self.fifty_move == o.fifty_move
        &&& self.full_moves == o.full_moves
        &&& self.view_rotated == o.view_rotated
        &&& self.end_of_game == o.end_of_game
        &&& self.end_of_search == o.end_of_search
        &&& self.game_line.len() == o.game_line.len()
        &&& self.game_line@.take(self.end_of_search as int) == o.game_line@.take(o.end_of_search as int)
        &&& self.tables == o.tables
    }

    /// Well-formedness depends only on the pieces and the bookkeeping sizes.
    pub proof fn lemma_wf_frame(a: Board, b: Board)
        requires
            a.wf_pieces(),
            b.same_pieces(a),
            b.wf_meta(),
        ensures
            b.wf(),
    {
        assert forall|k: int, i: int| is_piece(k) && 0 <= i < 64 implies
            (#[trigger] has_bit(b.bb_of(k), i) <==> b.square[i] == k) by {
            assert(b.bb_of(k) == a.bb_of(k));
            assert(b.square[i] == a.square@[i]);
        }
        assert forall|i: int| 0 <= i < 64 implies valid_code(#[trigger] b.square[i] as int) by {
            assert(b.square[i] == a.square@[i]);
        }
        assert forall|i: int| 0 <= i < 64 implies
            (#[trigger] has_bit(b.white_pieces, i) <==> is_white_piece(b.square[i] as int)) by {
            assert(b.square[i] == a.square@[i]);
        }
        assert forall|i: int| 0 <= i < 64 implies
            (#[trigger] has_bit(b.black_pieces, i) <==> is_black_piece(b.square[i] as int)) by {
            assert(b.square[i] == a.square@[i]);
        }
        assert forall|i: int| 0 <= i < 64 implies
            (#[trigger] has_bit(b.occupied_squares, i) <==> b.square[i] != 0) by {
            assert(b.square[i] == a.square@[i]);
        }
    }

    /// A board in the initial position, white to move, all castling rights,
    /// no en-passant square, both clocks at zero, empty buffers.
    pub fn new() -> (b: Self)
        ensures
            b.wf(),
            forall|i: int| 0 <= i < 64 ==> #[trigger] b.square[i] == initial_code(i),
            b.next_move == 0,
            b.castle_white == 3,
            b.castle_black == 3,
            b.ep_square == 0,
            b.fifty_move == 0,
            b.full_moves == 0,
            b.view_rotated == false,
            b.end_of_game == 0,
            b.end_of_search == 0,
            b.move_buffer.len() == MAX_MOV_BUFF,
            forall|i: int| 0 <= i < MAX_PLY ==> #[trigger] b.move_buf_len[i] == 0,
    {
        let mut v_square: [i32; 64] = [0i32; 64];
        v_square[4] = 2;
        v_square[3] = 7;
        v_square[0] = 6;
        v_square[7] = 6;
        v_square[1] = 3;
        v_square[6] = 3;
        v_square[2] = 5;
        v_square[5] = 5;
        v_square[60] = 10;
        v_square[59] = 15;
        v_square[56] = 14;
        v_square[63] = 14;
        v_square[57] = 11;
        v_square[62] = 11;
        v_square[58] = 13;
        v_square[61] = 13;
        v_square[8] = 1;
        v_square[9] = 1;
        v_square[10] = 1;
        v_square[11] = 1;
        v_square[12] = 1;
        v_square[13] = 1;
        v_square[14] = 1;
        v_square[15] = 1;
        v_square[48] = 9;
        v_square[49] = 9;
        v_square[50] = 9;
        v_square[51] = 9;
        v_square[52] = 9;
        v_square[53] = 9;
        v_square[54] = 9;
        v_square[55] = 9;
        assert forall|j: int| 0 <= j < 64 implies #[trigger] v_square[j] == initial_code(j) by {}
        assert forall|j: int| 0 <= j < 64 implies valid_code(#[trigger] v_square[j] as int) by {
            assert(v_square[j] == initial_code(j));
        }
        let mut move_buffer: Vec<Movim> = Vec::new();
        let mut k: usize = 0;
        while k < MAX_MOV_BUFF
            invariant
                k <= MAX_MOV_BUFF,
                move_buffer.len() == k,
            decreases MAX_MOV_BUFF - k,
        {
            move_buffer.push(Movim::new());
            k = k + 1;
        }
        let mut move_buf_len: Vec<usize> = Vec::new();
        let mut k: usize = 0;
        while k < MAX_PLY
            invariant
                k <= MAX_PLY,
                move_buf_len.len() == k,
                forall|j: int| 0 <= j < k ==> #[trigger] move_buf_len[j] == 0,
            decreases MAX_PLY - k,
        {
            move_buf_len.push(0);
            k = k + 1;
        }
        let mut game_line: Vec<GameLineRecord> = Vec::new();
        let mut k: usize = 0;
        while k < MAX_GAME_LINE
            invariant
                k <= MAX_GAME_LINE,
                game_line.len() == k,
                forall|j: int| 0 <= j < k ==> (#[trigger] game_line[j]).ep_square == 0,
            decreases MAX_GAME_LINE - k,
        {
            game_line.push(GameLineRecord::new());
            k = k + 1;
        }
        let mut new_board = Board {
            white_king: 0,
            white_queens: 0,
            white_rooks: 0,
            white_bishops: 0,
            white_knights: 0,
            white_pawns: 0,
            black_king: 0,
            black_queens: 0,
            black_rooks: 0,
            black_bishops: 0,
            black_knights: 0,
            black_pawns: 0,
            white_pieces: 0,
            black_pieces: 0,
            occupied_squares: 0,
            next_move: 0,
            castle_white: 3,
            castle_black: 3,
            ep_square: 0,
            fifty_move: 0,
            full_moves: 1,
            view_rotated: false,
            square: v_square,
            move_buffer,
            move_buf_len,
            end_of_game: 0,
            end_of_search: 0,
            game_line,
            tables: data_init(),
        };
        let ep = new_board.ep_square;
        new_board.init_from_squares(v_square, 0, 0, 0, 3, 3, ep);
        new_board
    }

    /// Sets up the bitboards and the state from an array of piece codes.
    #[verifier::rlimit(60)]
    pub(crate) fn init_from_squares(&mut self, input: [i32; 64], next: u8, fifty_m: i32, full_m: i32,
        castle_w: i32, castle_b: i32, ep_sq: i32)
        requires
            forall|i: int| 0 <= i < 64 ==> valid_code(#[trigger] input[i] as int),
            old(self).game_line.len() == MAX_GAME_LINE,
            old(self).move_buf_len.len() == MAX_PLY,
            old(self).end_of_search <= MAX_GAME_LINE,
            old(self).tables.wf(),
            0 <= ep_sq < 64,
            forall|i: int| 0 <= i < old(self).game_line.len() ==> 0 <= (#[trigger] old(self).game_line[i]).ep_square < 64,
        ensures
            final(self).wf(),
            final(self).square@ == input@,
            final(self).tables == old(self).tables,
            final(self).next_move == next,
            final(self).castle_white == castle_w as u8,
            final(self).castle_black == castle_b as u8,
            final(self).ep_square == ep_sq,
            final(self).fifty_move == fifty_m,
            final(self).full_moves == full_m,
            final(self).view_rotated == old(self).view_rotated,
            final(self).move_buffer@ == old(self).move_buffer@,
            final(self).move_buf_len@ == old(self).move_buf_len@,
            final(self).end_of_game == old(self).end_of_game,
            final(self).end_of_search == old(self).end_of_search,
            final(self).game_line@ == old(self).game_line@,
    {
        self.white_king = 0;
        self.white_queens = 0;
        self.white_rooks = 0;
        self.white_bishops = 0;
        self.white_knights = 0;
        self.white_pawns = 0;
        self.black_king = 0;
        self.black_queens = 0;
        self.black_rooks = 0;
        self.black_bishops = 0;
        self.black_knights = 0;
        self.black_pawns = 0;
        proof {
            assert forall|k: int, j: int| is_piece(k) && 0 <= j < 64 implies
                !#[trigger] has_bit(self.bb_of(k), j) by {
                lemma_bit_zero(j);
            }
        }
        let mut i: usize = 0;
        while i < 64
            invariant
                i <= 64,
                forall|j: int| 0 <= j < 64 ==> valid_code(#[trigger] input[j] as int),
                forall|j: int| 0 <= j < i ==> #[trigger] self.square[j] == input[j],
                forall|k: int, j: int| is_piece(k) && 0 <= j < 64 ==>
                    (#[trigger] has_bit(self.bb_of(k), j) <==> (j < i && input[j] == k)),
                self.game_line@ == old(self).game_line@,
                self.move_buf_len@ == old(self).move_buf_len@,
                self.move_buffer@ == old(self).move_buffer@,
                self.end_of_search == old(self).end_of_search,
                self.end_of_game == old(self).end_of_game,
                self.view_rotated == old(self).view_rotated,
                self.tables == old(self).tables,
            decreases 64 - i,
        {
            let p = input[i];
            let ghost before = *self;
            self.square[i] = p;
            let m: u64 = 1u64 << (i as u64);
            if p == 1 { self.white_pawns = self.white_pawns | m; }
            else if p == 2 { self.white_king = self.white_king | m; }
            else if p == 3 { self.white_knights = self.white_knights | m; }
            else if p == 5 { self.white_bishops = self.white_bishops | m; }
            else if p == 6 { self.white_rooks = self.white_rooks | m; }
            else if p == 7 { self.white_queens = self.white_queens | m; }
            else if p == 9 { self.black_pawns = self.black_pawns | m; }
            else if p == 10 { self.black_king = self.black_king | m; }
            else if p == 11 { self.black_knights = self.black_knights | m; }
            else if p == 13 { self.black_bishops = self.black_bishops | m; }
            else if p == 14 { self.black_rooks = self.black_rooks | m; }
            else if p == 15 { self.black_queens = self.black_queens | m; }
            proof {
                assert(forall|kk: int| is_piece(kk) ==> #[trigger] self.bb_of(kk) == (if kk == p as int {
                    before.bb_of(kk) | m
                } else {
                    before.bb_of(kk)
                }));
                assert forall|k: int, j: int| is_piece(k) && 0 <= j < 64 implies
                    (#[trigger] has_bit(self.bb_of(k), j) <==> (j < i + 1 && input[j] == k)) by {
                    assert(has_bit(before.bb_of(k), j) <==> (j < i && input[j] == k));
                    if k == p as int {
                        lemma_bit_or(before.bb_of(k), m, j);
                        lemma_bit_single(i as u64, j);
                    }
                }
            }
            i = i + 1;
        }
        let ghost lp = *self;
        proof {
            assert forall|k: int, j: int| is_piece(k) && 0 <= j < 64 implies
                (#[trigger] has_bit(lp.bb_of(k), j) <==> lp.square[j] == k) by {
                assert(has_bit(lp.bb_of(k), j) <==> (j < 64 && input[j] == k));
            }
        }
        self.white_pieces = self.white_king | self.white_queens | self.white_rooks
            | self.white_bishops | self.white_knights | self.white_pawns;
        self.black_pieces = self.black_king | self.black_queens | self.black_rooks
            | self.black_bishops | self.black_knights | self.black_pawns;
        self.occupied_squares = self.white_pieces | self.black_pieces;
        proof {
            assert(self.square@ =~= input@);
            assert forall|j: int| 0 <= j < 64 implies
                (#[trigger] has_bit(self.white_pieces, j) <==> is_white_piece(self.square[j] as int)) by {
                lemma_bit_or(self.white_king | self.white_queens | self.white_rooks | self.white_bishops | self.white_knights, self.white_pawns, j);
                lemma_bit_or(self.white_king | self.white_queens | self.white_rooks | self.white_bishops, self.white_knights, j);
                lemma_bit_or(self.white_king | self.white_queens | self.white_rooks, self.white_bishops, j);
                lemma_bit_or(self.white_king | self.white_queens, self.white_rooks, j);
                lemma_bit_or(self.white_king, self.white_queens, j);
                assert(has_bit(lp.bb_of(1), j) <==> lp.square[j] == 1);
                assert(has_bit(lp.bb_of(2), j) <==> lp.square[j] == 2);
                assert(has_bit(lp.bb_of(3), j) <==> lp.square[j] == 3);
                assert(has_bit(lp.bb_of(5), j) <==> lp.square[j] == 5);
                assert(has_bit(lp.bb_of(6), j) <==> lp.square[j] == 6);
                assert(has_bit(lp.bb_of(7), j) <==> lp.square[j] == 7);
            }
            assert forall|j: int| 0 <= j < 64 implies
                (#[trigger] has_bit(self.black_pieces, j) <==> is_black_piece(self.square[j] as int)) by {
                lemma_bit_or(self.black_king | self.black_queens | self.black_rooks | self.black_bishops | self.black_knights, self.black_pawns, j);
                lemma_bit_or(self.black_king | self.black_queens | self.black_rooks | self.black_bishops, self.black_knights, j);
                lemma_bit_or(self.black_king | self.black_queens | self.black_rooks, self.black_bishops, j);
                lemma_bit_or(self.black_king | self.black_queens, self.black_rooks, j);
                lemma_bit_or(self.black_king, self.black_queens, j);
                assert(has_bit(lp.bb_of(9), j) <==> lp.square[j] == 9);
                assert(has_bit(lp.bb_of(10), j) <==> lp.square[j] == 10);
                assert(has_bit(lp.bb_of(11), j) <==> lp.square[j] == 11);
                assert(has_bit(lp.bb_of(13), j) <==> lp.square[j] == 13);
                assert(has_bit(lp.bb_of(14), j) <==> lp.square[j] == 14);
                assert(has_bit(lp.bb_of(15), j) <==> lp.square[j] == 15);
            }
            assert forall|j: int| 0 <= j < 64 implies
                (#[trigger] has_bit(self.occupied_squares, j) <==> self.square[j] != 0) by {
                lemma_bit_or(self.white_pieces, self.black_pieces, j);
            }
            assert forall|k: int, j: int| is_piece(k) && 0 <= j < 64 implies
                (#[trigger] has_bit(self.bb_of(k), j) <==> self.square[j] == k) by {
                assert(self.bb_of(k) == lp.bb_of(k));
                assert(self.square[j] == lp.square[j]);
            }
            assert forall|j: int| 0 <= j < 64 implies valid_code(#[trigger] self.square[j] as int) by {
                assert(self.square[j] == input[j]);
            }
            assert(self.wf_pieces());
        }
        let ghost pw = *self;
        self.next_move = next;
        #[verifier::truncate]
        let cw: u8 = castle_w as u8;
        #[verifier::truncate]
        let cb: u8 = castle_b as u8;
        self.castle_white = cw;
        self.castle_black = cb;
        self.ep_square = ep_sq;
        self.fifty_move = fifty_m;
        self.full_moves = full_m;
        proof { Board::lemma_wf_frame(pw, *self); }
    }

    fn square_attacked_exec(&self, to: usize, from_side: u8) -> (r: bool)
        requires
            self.wf(),
            to < 64,
        ensures
            r == square_attacked(*self, to as int, from_side),
    {
        let t = &self.tables;
        proof {
            assert(t.t64(0) == t.white_pawn_attacks);
            assert(t.t64(3) == t.black_pawn_attacks);
            assert(t.t64(6) == t.knight_attacks);
            assert(t.t64(7) == t.king_attacks);
        }
        let occ = self.occupied_squares;
        if from_side != 0 {
            if self.black_pawns & t.white_pawn_attacks[to] != 0 { return true; }
            if self.black_knights & t.knight_attacks[to] != 0 { return true; }
            if self.black_king & t.king_attacks[to] != 0 { return true; }
            let rq = self.black_queens | self.black_rooks;
            if rq != 0 {
                if mov_rankmoves(to as u32, rq, occ, t) != 0 { return true; }
                if mov_filemoves(to as u32, rq, occ, t) != 0 { return true; }
            }
            let bq = self.black_queens | self.black_bishops;
            if bq != 0 {
                if mov_slide_a8h1_moves(to as u32, bq, occ, t) != 0 { return true; }
                if mov_slide_a1h8_moves(to as u32, bq, occ, t) != 0 { return true; }
            }
            false
        } else {
            if self.white_pawns & t.black_pawn_attacks[to] != 0 { return true; }
            if self.white_knights & t.knight_attacks[to] != 0 { return true; }
            if self.white_king & t.king_attacks[to] != 0 { return true; }
            let rq = self.white_queens | self.white_rooks;
            if rq != 0 {
                if mov_rankmoves(to as u32, rq, occ, t) != 0 { return true; }
                if mov_filemoves(to as u32, rq, occ, t) != 0 { return true; }
            }
            let bq = self.white_queens | self.white_bishops;
            if bq != 0 {
                if mov_slide_a8h1_moves(to as u32, bq, occ, t) != 0 { return true; }
                if mov_slide_a1h8_moves(to as u32, bq, occ, t) != 0 { return true; }
            }
            false
        }
    }

    /// Whether any square of `target_bitmap` is attacked by `from_side`
    /// (nonzero: black); used for check detection and castling legality.
    pub fn is_attacked(&self, target_bitmap: u64, from_side: u8) -> (r: bool)
        requires
            self.wf(),
        ensures
            r == attacked(*self, target_bitmap, from_side),
    {
        let mut temp_target = target_bitmap;
        while temp_target != 0
            invariant
                self.wf(),
                forall|i: int| 0 <= i < 64 && #[trigger] has_bit(temp_target, i) ==> has_bit(target_bitmap, i),
                forall|i: int| 0 <= i < 64 && #[trigger] has_bit(target_bitmap, i) && !has_bit(temp_target, i)
                    ==> !square_attacked(*self, i, from_side),
            decreases temp_target,
        {
            let to = first_one(temp_target);
            if self.square_attacked_exec(to as usize, from_side) {
                assert(has_bit(target_bitmap, to as int));
                return true;
            }
            let ghost old_t = temp_target;
            proof { lemma_clear_bit_smaller(temp_target, to as u64); }
            temp_target = temp_target ^ (1u64 << (to as u64));
            proof {
                assert forall|i: int| 0 <= i < 64 && #[trigger] has_bit(temp_target, i) implies has_bit(target_bitmap, i) by {
                    lemma_toggle(old_t, to as u64, i);
                }
                assert forall|i: int| 0 <= i < 64 && #[trigger] has_bit(target_bitmap, i) && !has_bit(temp_target, i)
                    implies !square_attacked(*self, i, from_side) by {
                    lemma_toggle(old_t, to as u64, i);
                }
            }
        }
        proof {
            assert forall|i: int| 0 <= i < 64 && #[trigger] has_bit(target_bitmap, i) implies
                !square_attacked(*self, i, from_side) by {
                lemma_bit_zero(i);
            }
        }
        false
    }

    /// Whether the side that just moved left its king attacked.
    pub fn is_other_king_attacked(&self) -> (r: bool)
        requires
            self.wf(),
        ensures
            r == other_king_attacked(*self),
    {
        if self.next_move != 0 {
            self.is_attacked(self.white_king, self.next_move)
        } else {
            self.is_attacked(self.black_king, self.next_move)
        }
    }

    /// Whether the side to move is in check.
    pub fn is_own_king_attacked(&self) -> (r: bool)
        requires
            self.wf(),
        ensures
            r == own_king_attacked(*self),
    {
        if self.next_move == 1 {
            self.is_attacked(self.black_king, self.next_move ^ 1)
        } else {
            self.is_attacked(self.white_king, self.next_move ^ 1)
        }
    }

    /// Takes the piece off square `sq`.
    #[verifier::rlimit(60)]
    fn remove_piece(&mut self, sq: usize)
        requires
            old(self).wf_pieces(),
            sq < 64,
            is_piece(old(self).square[sq as int] as int),
        ensures
            final(self).wf_pieces(),
            final(self).square@ == old(self).square@.update(sq as int, 0),
            final(self).same_but_pieces(*old(self)),
    {
        let k = self.square[sq];
        let m: u64 = 1u64 << (sq as u64);
        if k == 1 { self.white_pawns = self.white_pawns ^ m; }
        else if k == 2 { self.white_king = self.white_king ^ m; }
        else if k == 3 { self.white_knights = self.white_knights ^ m; }
        else if k == 5 { self.white_bishops = self.white_bishops ^ m; }
        else if k == 6 { self.white_rooks = self.white_rooks ^ m; }
        else if k == 7 { self.white_queens = self.white_queens ^ m; }
        else if k == 9 { self.black_pawns = self.black_pawns ^ m; }
        else if k == 10 { self.black_king = self.black_king ^ m; }
        else if k == 11 { self.black_knights = self.black_knights ^ m; }
        else if k == 13 { self.black_bishops = self.black_bishops ^ m; }
        else if k == 14 { self.black_rooks = self.black_rooks ^ m; }
        else { self.black_queens = self.black_queens ^ m; }
        assert(forall|kk: int| is_piece(kk) ==> #[trigger] self.bb_of(kk) == (if kk == k as int {
            old(self).bb_of(kk) ^ m
        } else {
            old(self).bb_of(kk)
        }));
        if k < 8 {
            self.white_pieces = self.white_pieces ^ m;
        } else {
            self.black_pieces = self.black_pieces ^ m;
        }
        self.occupied_squares = self.occupied_squares ^ m;
        self.square[sq] = 0;
        proof {
            lemma_toggle_pieces(*old(self), *self, sq as int, k as int, 0i32);
        }
    }

    /// Puts a piece with code `k` on the empty square `sq`.
    #[verifier::rlimit(60)]
    fn add_piece(&mut self, sq: usize, k: i32)
        requires
            old(self).wf_pieces(),
            sq < 64,
            is_piece(k as int),
            old(self).square[sq as int] == 0,
        ensures
            final(self).wf_pieces(),
            final(self).square@ == old(self).square@.update(sq as int, k),
            final(self).same_but_pieces(*old(self)),
    {
        let m: u64 = 1u64 << (sq as u64);
        if k == 1 { self.white_pawns = self.white_pawns ^ m; }
        else if k == 2 { self.white_king = self.white_king ^ m; }
        else if k == 3 { self.white_knights = self.white_knights ^ m; }
        else if k == 5 { self.white_bishops = self.white_bishops ^ m; }
        else if k == 6 { self.white_rooks = self.white_rooks ^ m; }
        else if k == 7 { self.white_queens = self.white_queens ^ m; }
        else if k == 9 { self.black_pawns = self.black_pawns ^ m; }
        else if k == 10 { self.black_king = self.black_king ^ m; }
        else if k == 11 { self.black_knights = self.black_knights ^ m; }
        else if k == 13 { self.black_bishops = self.black_bishops ^ m; }
        else if k == 14 { self.black_rooks = self.black_rooks ^ m; }
        else { self.black_queens = self.black_queens ^ m; }
        assert(forall|kk: int| is_piece(kk) ==> #[trigger] self.bb_of(kk) == (if kk == k as int {
            old(self).bb_of(kk) ^ m
        } else {
            old(self).bb_of(kk)
        }));
        if k < 8 {
            self.white_pieces = self.white_pieces ^ m;
        } else {
            self.black_pieces = self.black_pieces ^ m;
        }
        self.occupied_squares = self.occupied_squares ^ m;
        self.square[sq] = k;
        proof {
            lemma_toggle_pieces(*old(self), *self, sq as int, k as int, k);
        }
    }
}


/// Toggling one square of a piece's bitboard, its side's bitboard and the
/// occupancy keeps them in step with the square array.
proof fn lemma_toggle_pieces(o: Board, n: Board, sq: int, k: int, newv: i32)
    requires
        o.wf_pieces(),
        0 <= sq < 64,
        is_piece(k),
        (o.square[sq] == k && newv == 0) || (o.square[sq] == 0 && newv == k),
        forall|kk: int| is_piece(kk) ==> #[trigger] n.bb_of(kk) == (if kk == k {
            o.bb_of(kk) ^ (1u64 << (sq as u64))
        } else {
            o.bb_of(kk)
        }),
        n.white_pieces == (if k < 8 { o.white_pieces ^ (1u64 << (sq as u64)) } else { o.white_pieces }),
        n.black_pieces == (if k >= 8 { o.black_pieces ^ (1u64 << (sq as u64)) } else { o.black_pieces }),
        n.occupied_squares == o.occupied_squares ^ (1u64 << (sq as u64)),
        n.square@ == o.square@.update(sq, newv),
    ensures
        n.wf_pieces(),
{
    assert forall|kk: int, i: int| is_piece(kk) && 0 <= i < 64 implies
        (#[trigger] has_bit(n.bb_of(kk), i) <==> n.square[i] == kk) by {
        assert(has_bit(o.bb_of(kk), i) <==> o.square[i] == kk);
        assert(n.square[i] == (if i == sq { newv } else { o.square[i] }));
        if kk == k {
            lemma_toggle(o.bb_of(kk), sq as u64, i);
        }
    }
    assert forall|i: int| 0 <= i < 64 implies valid_code(#[trigger] n.square[i] as int) by {
        assert(n.square[i] == (if i == sq { newv } else { o.square[i] }));
    }
    assert forall|i: int| 0 <= i < 64 implies
        (#[trigger] has_bit(n.white_pieces, i) <==> is_white_piece(n.square[i] as int)) by {
        assert(n.square[i] == (if i == sq { newv } else { o.square[i] }));
        lemma_toggle(o.white_pieces, sq as u64, i);
    }
    assert forall|i: int| 0 <= i < 64 implies
        (#[trigger] has_bit(n.black_pieces, i) <==> is_black_piece(n.square[i] as int)) by {
        assert(n.square[i] == (if i == sq { newv } else { o.square[i] }));
        lemma_toggle(o.black_pieces, sq as u64, i);
    }
    assert forall|i: int| 0 <= i < 64 implies
        (#[trigger] has_bit(n.occupied_squares, i) <==> n.square[i] != 0) by {
        assert(n.square[i] == (if i == sq { newv } else { o.square[i] }));
        lemma_toggle(o.occupied_squares, sq as u64, i);
    }
}

/// Square `to` is attacked by a black piece, as the attack tables tell it.
pub open spec fn attacked_by_black(b: Board, to: int) -> bool {
    let t = b.tables;
    let occ = b.occupied_squares;
    let rq = b.black_queens | b.black_rooks;
    let bq = b.black_queens | b.black_bishops;
    ||| b.black_pawns & t.white_pawn_attacks[to] != 0
    ||| b.black_knights & t.knight_attacks[to] != 0
    ||| b.black_king & t.king_attacks[to] != 0
    ||| rq != 0 && (rankmoves_spec(t, to, rq, occ) != 0 || filemoves_spec(t, to, rq, occ) != 0)
    ||| bq != 0 && (a8h1moves_spec(t, to, bq, occ) != 0 || a1h8moves_spec(t, to, bq, occ) != 0)
}

/// Square `to` is attacked by a white piece, as the attack tables tell it.
pub open spec fn attacked_by_white(b: Board, to: int) -> bool {
    let t = b.tables;
    let occ = b.occupied_squares;
    let rq = b.white_queens | b.white_rooks;
    let bq = b.white_queens | b.white_bishops;
    ||| b.white_pawns & t.black_pawn_attacks[to] != 0
    ||| b.white_knights & t.knight_attacks[to] != 0
    ||| b.white_king & t.king_attacks[to] != 0
    ||| rq != 0 && (rankmoves_spec(t, to, rq, occ) != 0 || filemoves_spec(t, to, rq, occ) != 0)
    ||| bq != 0 && (a8h1moves_spec(t, to, bq, occ) != 0 || a1h8moves_spec(t, to, bq, occ) != 0)
}

/// Square `to` is attacked by the side `side` (nonzero: black).
pub open spec fn square_attacked(b: Board, to: int, side: u8) -> bool {
    if side != 0 { attacked_by_black(b, to) } else { attacked_by_white(b, to) }
}

/// Some square of `target` is attacked by `side`.
pub open spec fn attacked(b: Board, target: u64, side: u8) -> bool {
    exists|to: int| 0 <= to < 64 && #[trigger] has_bit(target, to) && square_attacked(b, to, side)
}

/// The king of the side that just moved is attacked (the move left it in check).
pub open spec fn other_king_attacked(b: Board) -> bool {
    if b.next_move != 0 { attacked(b, b.white_king, b.next_move) } else { attacked(b, b.black_king, b.next_move) }
}

/// The king of the side to move is attacked (it is in check).
pub open spec fn own_king_attacked(b: Board) -> bool {
    if b.next_move == 1 { attacked(b, b.black_king, b.next_move ^ 1u8) } else { attacked(b, b.white_king, b.next_move ^ 1u8) }
}

/// The bitboards are determined by the square array.
pub proof fn lemma_wf_unique(a: Board, b: Board)
    requires
        a.wf(),
        b.wf(),
        a.square@ == b.square@,
    ensures
        a.same_pieces(b),
{
    assert forall|k: int| is_piece(k) implies #[trigger] a.bb_of(k) == b.bb_of(k) by {
        assert forall|i: int| 0 <= i < 64 implies #[trigger] has_bit(a.bb_of(k), i) == has_bit(b.bb_of(k), i) by {
            assert(a.square[i] == b.square@[i]);
        }
        lemma_bits_ext(a.bb_of(k), b.bb_of(k));
    }
    assert(a.bb_of(1) == b.bb_of(1));
    assert(a.bb_of(2) == b.bb_of(2));
    assert(a.bb_of(3) == b.bb_of(3));
    assert(a.bb_of(5) == b.bb_of(5));
    assert(a.bb_of(6) == b.bb_of(6));
    assert(a.bb_of(7) == b.bb_of(7));
    assert(a.bb_of(9) == b.bb_of(9));
    assert(a.bb_of(10) == b.bb_of(10));
    assert(a.bb_of(11) == b.bb_of(11));
    assert(a.bb_of(13) == b.bb_of(13));
    assert(a.bb_of(14) == b.bb_of(14));
    assert(a.bb_of(15) == b.bb_of(15));
    assert forall|i: int| 0 <= i < 64 implies #[trigger] has_bit(a.white_pieces, i) == has_bit(b.white_pieces, i) by {
        assert(a.square[i] == b.square@[i]);
    }
    lemma_bits_ext(a.white_pieces, b.white_pieces);
    assert forall|i: int| 0 <= i < 64 implies #[trigger] has_bit(a.black_pieces, i) == has_bit(b.black_pieces, i) by {
        assert(a.square[i] == b.square@[i]);
    }
    lemma_bits_ext(a.black_pieces, b.black_pieces);
    assert forall|i: int| 0 <= i < 64 implies #[trigger] has_bit(a.occupied_squares, i) == has_bit(b.occupied_squares, i) by {
        assert(a.square[i] == b.square@[i]);
    }
    lemma_bits_ext(a.occupied_squares, b.occupied_squares);
}

/// Flipping the side to move twice gives it back.
pub proof fn lemma_side_flip(x: u8)
    ensures
        (x ^ 1u8) ^ 1u8 == x,
{
    assert((x ^ 1u8) ^ 1u8 == x) by (bit_vector);
}

/// A move made on a position can be taken back from the position it leads to.
pub proof fn law_made_move_can_be_undone(b0: Board, m: Movim, b1: Board)
    requires
        b0.wf(),
        b0.move_ok(m),
        make_move_post(b0, m, b1),
    ensures
        b1.undo_ok(m),
{
    m.lemma_masks();
}

/// Taking back a move restores the position it was made from: the pieces, the
/// side to move, the castling rights, the en-passant square, both clocks and
/// the game line up to where the move was recorded.
pub proof fn law_unmake_undoes_make(b0: Board, m: Movim, b1: Board, b2: Board)
    requires
        b0.wf(),
        b0.move_ok(m),
        make_move_post(b0, m, b1),
        unmake_move_post(b1, m, b2),
    ensures
        b2.same_pieces(b0),
        b2.next_move == b0.next_move,
        b2.castle_white == b0.castle_white,
        b2.castle_black == b0.castle_black,
        b2.ep_square == b0.ep_square,
        b2.fifty_move == b0.fifty_move,
        b2.full_moves == b0.full_moves,
        b2.end_of_search == b0.end_of_search,
        b2.game_line@.take(b0.end_of_search as int) == b0.game_line@.take(b0.end_of_search as int),
        b2.move_buffer@ == b0.move_buffer@,
        b2.move_buf_len@ == b0.move_buf_len@,
        b2.view_rotated == b0.view_rotated,
        b2.end_of_game == b0.end_of_game,
        b2.tables == b0.tables,
{
    m.lemma_masks();
    assert(b2.square@ =~= b0.square@);
    lemma_wf_unique(b2, b0);
    lemma_side_flip(b0.next_move);
    assert(b2.game_line@.take(b0.end_of_search as int) =~= b0.game_line@.take(b0.end_of_search as int));
}


/// Attacks depend on the position only.
pub proof fn lemma_attacks_congruent(a: Board, b: Board)
    requires
        a.same_position(b),
    ensures
        forall|t: u64, side: u8| attacked(a, t, side) == #[trigger] attacked(b, t, side),
        other_king_attacked(a) == other_king_attacked(b),
        own_king_attacked(a) == own_king_attacked(b),
{
    assert forall|to: int, side: u8| square_attacked(a, to, side) == #[trigger] square_attacked(b, to, side) by {}
    assert forall|t: u64, side: u8| attacked(a, t, side) == #[trigger] attacked(b, t, side) by {
        if attacked(a, t, side) {
            let to = choose|to: int| 0 <= to < 64 && #[trigger] has_bit(t, to) && square_attacked(a, to, side);
            assert(square_attacked(b, to, side));
        }
        if attacked(b, t, side) {
            let to = choose|to: int| 0 <= to < 64 && #[trigger] has_bit(t, to) && square_attacked(b, to, side);
            assert(square_attacked(a, to, side));
        }
    }
}

/// The position a move leads to is determined by the position it is made on.
pub proof fn lemma_pos_after_unique(a: Board, b: Board, m: Movim, n1: Board, n2: Board)
    requires
        a.same_position(b),
        pos_after(a, m, n1),
        pos_after(b, m, n2),
    ensures
        n1.same_position(n2),
{
    lemma_wf_unique(n1, n2);
}

/// Making a move leads to the position it specifies.
pub proof fn lemma_make_move_pos(b: Board, m: Movim, n: Board)
    requires
        make_move_post(b, m, n),
    ensures
        pos_after(b, m, n),
{
}

/// Taking a move back from any board with the same state as the one the
/// move led to restores the state it was made from.
pub proof fn lemma_unmake_restores_state(b0: Board, m: Movim, b1: Board, b2: Board, b3: Board)
    requires
        b0.wf(),
        b0.move_ok(m),
        make_move_post(b0, m, b1),
        b2.same_state(b1),
        unmake_move_post(b2, m, b3),
    ensures
        b3.same_state(b0),
{
    m.lemma_masks();
    assert(b3.square@ =~= b0.square@);
    lemma_wf_unique(b3, b0);
    lemma_side_flip(b0.next_move);
    assert(b1.game_line@.take(b1.end_of_search as int)[b1.end_of_search - 1] == b1.game_line[b1.end_of_search - 1]);
    assert(b2.game_line[b2.end_of_search - 1] == b1.game_line[b1.end_of_search - 1]);
    assert(b3.game_line@.take(b0.end_of_search as int) =~= b0.game_line@.take(b0.end_of_search as int)) by {
        assert forall|j: int| 0 <= j < b0.end_of_search implies #[trigger] b3.game_line[j] == b0.game_line[j] by {
            assert(b2.game_line@.take(b2.end_of_search as int)[j] == b1.game_line@.take(b1.end_of_search as int)[j]);
        }
    }
}
}
