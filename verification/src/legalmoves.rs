use vstd::prelude::*;
use crate::board::{Board, pos_after, other_king_attacked, law_made_move_can_be_undone, record_of,
    fifty_after, full_after,
    law_unmake_undoes_make, lemma_attacks_congruent, lemma_pos_after_unique, lemma_make_move_pos};
use crate::movim::{Movim, uci_chars};
use crate::movegen::{gen_moves, written};
use crate::globs::MAX_GAME_LINE;
use crate::displaymove::{get_san_disambig, san_disambig_chars, can_make_two, lemma_san_congruent};
use crate::bitops::{popcount, bit_cnt, has_bit, lemma_bit_and, lemma_bit_zero, lemma_bits_ext};
use crate::tables::{sfile, srank, law_square_colours};

verus! {

/// A legal move with its UCI and SAN notations.
pub struct LegalMove {
    pub movim: Movim,
    pub uci: String,
    pub san: String,
}

impl LegalMove {
    pub fn new() -> (r: Self)
        ensures
            r.movim.move_int == 0,
            r.uci@ == Seq::<char>::empty(),
            r.san@ == Seq::<char>::empty(),
    {
        LegalMove { movim: Movim::new(), uci: String::new(), san: String::new() }
    }

    pub fn set_movim(&mut self, mov: Movim)
        ensures
            final(self).movim == mov,
            final(self).uci@ == old(self).uci@,
            final(self).san@ == old(self).san@,
    {
        self.movim = mov;
    }

    pub fn set_uci(&mut self, ucistr: String)
        ensures
            final(self).movim == old(self).movim,
            final(self).uci@ == ucistr@,
            final(self).san@ == old(self).san@,
    {
        self.uci = ucistr;
    }

    pub fn set_san(&mut self, sanstr: String)
        ensures
            final(self).movim == old(self).movim,
            final(self).uci@ == old(self).uci@,
            final(self).san@ == sanstr@,
    {
        self.san = sanstr;
    }
}

/// Making `m` on `b` does not leave the mover's king attacked.
pub open spec fn king_safe_after(b: Board, m: Movim) -> bool {
    forall|n: Board| #[trigger] pos_after(b, m, n) ==> !other_king_attacked(n)
}

/// The moves of `s` that do not leave the mover's king attacked, in order.
pub open spec fn keep_legal(b: Board, s: Seq<Movim>) -> Seq<Movim>
    decreases s.len(),
{
    if s.len() == 0 {
        Seq::empty()
    } else {
        keep_legal(b, s.drop_last()) + if king_safe_after(b, s.last()) {
            seq![s.last()]
        } else {
            Seq::empty()
        }
    }
}

/// The legal moves of the side to move, in the generator's order.
pub open spec fn legal_moves(b: Board) -> Seq<Movim> {
    keep_legal(b, gen_moves(b))
}

/// A move can be made on `b` and taken back: the board is well formed, the
/// game line has room and the clocks do not overflow.
pub open spec fn can_make(b: Board) -> bool {
    &&& b.wf()
    &&& b.end_of_search < MAX_GAME_LINE
    &&& b.fifty_move < i32::MAX
    &&& b.full_moves < i32::MAX
}

/// Whether a move leaves the king safe depends on the position only.
pub proof fn lemma_king_safe_congruent(a: Board, b: Board, m: Movim)
    requires
        a.same_position(b),
    ensures
        king_safe_after(a, m) == king_safe_after(b, m),
{
    assert forall|n: Board| pos_after(a, m, n) == pos_after(b, m, n) by {}
}

/// So does the list of legal moves kept from a list.
pub proof fn lemma_keep_legal_congruent(a: Board, b: Board, s: Seq<Movim>)
    requires
        a.same_position(b),
    ensures
        keep_legal(a, s) == keep_legal(b, s),
    decreases s.len(),
{
    if s.len() > 0 {
        lemma_keep_legal_congruent(a, b, s.drop_last());
        lemma_king_safe_congruent(a, b, s.last());
    }
}

/// Taking one more move of a list into account.
proof fn lemma_keep_legal_step(b: Board, s: Seq<Movim>, i: int)
    requires
        0 <= i < s.len(),
    ensures
        keep_legal(b, s.take(i + 1)) == keep_legal(b, s.take(i)) + if king_safe_after(b, s[i]) {
            seq![s[i]]
        } else {
            Seq::empty()
        },
{
    assert(s.take(i + 1).drop_last() =~= s.take(i));
    assert(s.take(i + 1).last() == s[i]);
}

impl Board {
    /// Makes `m`, looks whether the mover's king is attacked, and takes the
    /// move back.
    fn try_move(&mut self, m: Movim) -> (safe: bool)
        requires
            can_make(*old(self)),
            old(self).move_ok(m),
        ensures
            safe == king_safe_after(*old(self), m),
            final(self).wf(),
            final(self).same_state(*old(self)),
            final(self).move_buffer@ == old(self).move_buffer@,
            final(self).move_buf_len@ == old(self).move_buf_len@,
    {
        let ghost b0 = *self;
        self.make_move(m);
        let ghost b1 = *self;
        let attacked = self.is_other_king_attacked();
        proof {
            law_made_move_can_be_undone(b0, m, b1);
            lemma_make_move_pos(b0, m, b1);
            assert forall|n: Board| pos_after(b0, m, n) implies other_king_attacked(n) == attacked by {
                lemma_pos_after_unique(b0, b0, m, n, b1);
                lemma_attacks_congruent(n, b1);
            }
        }
        self.unmake_move(m);
        proof { law_unmake_undoes_make(b0, m, b1, *self); }
        !attacked
    }

    /// The legal moves of the side to move, with their UCI notation; the SAN
    /// is left empty.  The position is given back as it was.
    pub fn get_legals(&mut self) -> (r: Vec<LegalMove>)
        requires
            can_make(*old(self)),
        ensures
            r.len() == legal_moves(*old(self)).len(),
            forall|i: int| 0 <= i < r.len() ==> (#[trigger] r[i]).movim == legal_moves(*old(self))[i]
                && r[i].uci@ == uci_chars(r[i].movim) && r[i].san@ == Seq::<char>::empty()
                && old(self).move_ok(r[i].movim),
            final(self).wf(),
            final(self).same_state(*old(self)),
            final(self).move_buffer@ == written(old(self).move_buffer@, 0, gen_moves(*old(self))),
            final(self).move_buf_len@ == old(self).move_buf_len@.update(0, 0).update(1, 0),
    {
        let ghost b0 = *self;
        let n = self.movegen(0);
        let ghost bg = *self;
        self.move_buf_len.set(0, 0);
        self.move_buf_len.set(1, n);
        proof { Board::lemma_wf_frame(bg, *self); }
        let ghost gen = gen_moves(b0);
        let ghost mbl = self.move_buf_len@;
        let ghost bufw = self.move_buffer@;
        assert(b0.move_buffer@.take(0) + gen =~= gen);
        let mut legal_moves: Vec<LegalMove> = Vec::new();
        let mut i: usize = 0;
        while i < n
            invariant
                can_make(*self),
                self.same_state(b0),
                self.move_buffer@ == bufw,
                bufw == written(b0.move_buffer@, 0, gen),
                bufw.len() >= n,
                bufw.take(n as int) == gen,
                gen == gen_moves(b0),
                n == gen.len(),
                forall|j: int| 0 <= j < n ==> b0.move_ok(#[trigger] gen[j]),
                self.move_buf_len@ == mbl,
                i <= n,
                legal_moves.len() == keep_legal(b0, gen.take(i as int)).len(),
                forall|j: int| 0 <= j < legal_moves.len() ==> (#[trigger] legal_moves[j]).movim
                    == keep_legal(b0, gen.take(i as int))[j] && legal_moves[j].uci@ == uci_chars(
                    legal_moves[j].movim) && legal_moves[j].san@ == Seq::<char>::empty()
                    && b0.move_ok(legal_moves[j].movim),
            decreases n - i,
        {
            let mv = self.move_buffer[i];
            assert(bufw.take(n as int)[i as int] == bufw[i as int]);
            assert(b0.move_ok(gen[i as int]));
            let ghost bi = *self;
            let safe = self.try_move(mv);
            proof {
                lemma_king_safe_congruent(bi, b0, mv);
                lemma_keep_legal_step(b0, gen, i as int);
            }
            if safe {
                let u = mv.get_uci();
                let mut legalm = LegalMove::new();
                legalm.set_movim(mv);
                legalm.set_uci(u);
                legal_moves.push(legalm);
            }
            i = i + 1;
        }
        assert(gen.take(n as int) =~= gen);
        let ghost bl = *self;
        self.move_buf_len.set(0, 0);
        self.move_buf_len.set(1, 0);
        proof { Board::lemma_wf_frame(bl, *self); }
        legal_moves
    }
}


impl Board {
    /// Generates the moves from buffer position `idx` on and counts the
    /// legal ones; returns the count and the end of the generated moves.
    pub(crate) fn count_legal(&mut self, idx: usize) -> (r: (usize, usize))
        requires
            can_make(*old(self)),
            idx <= old(self).move_buffer.len(),
        ensures
            r.0 == legal_moves(*old(self)).len(),
            r.1 == idx + gen_moves(*old(self)).len(),
            final(self).move_buffer@ == written(old(self).move_buffer@, idx as int, gen_moves(*old(self))),
            final(self).move_buf_len@ == old(self).move_buf_len@,
            final(self).wf(),
            final(self).same_state(*old(self)),
    {
        let ghost b0 = *self;
        let end = self.movegen(idx);
        let ghost gen = gen_moves(b0);
        let ghost bufw = self.move_buffer@;
        let ghost buf = bufw.take(end as int);
        let mut count: usize = 0;
        let mut i: usize = idx;
        while i < end
            invariant
                can_make(*self),
                self.same_state(b0),
                self.move_buffer@ == bufw,
                bufw == written(b0.move_buffer@, idx as int, gen),
                bufw.len() >= end,
                buf == bufw.take(end as int),
                buf == b0.move_buffer@.take(idx as int) + gen,
                gen == gen_moves(b0),
                end == buf.len(),
                idx <= i <= end,
                idx <= b0.move_buffer.len(),
                forall|j: int| idx <= j < end ==> b0.move_ok(#[trigger] buf[j]),
                self.move_buf_len@ == b0.move_buf_len@,
                count == keep_legal(b0, gen.take(i - idx)).len(),
                count <= i - idx,
            decreases end - i,
        {
            let mv = self.move_buffer[i];
            assert(buf[i as int] == bufw[i as int]);
            assert(buf[i as int] == gen[i - idx]);
            let ghost bi = *self;
            let safe = self.try_move(mv);
            proof {
                lemma_king_safe_congruent(bi, b0, mv);
                lemma_keep_legal_step(b0, gen, i - idx);
            }
            if safe {
                count = count + 1;
            }
            i = i + 1;
        }
        assert(gen.take(end - idx) =~= gen);
        (count, end)
    }
}


/// Neither side has the pieces left to mate: no pawns, and king against
/// king, a lone knight against a bare king, or only bishops, all on squares
/// of one colour.
pub open spec fn insufficient_material(b: Board) -> bool {
    let wn = popcount(b.white_knights);
    let wb = popcount(b.white_bishops);
    let wr = popcount(b.white_rooks);
    let wq = popcount(b.white_queens);
    let bn = popcount(b.black_knights);
    let bb = popcount(b.black_bishops);
    let br = popcount(b.black_rooks);
    let bq = popcount(b.black_queens);
    let wt = 3 * wn + 3 * wb + 5 * wr + 10 * wq;
    let bt = 3 * bn + 3 * bb + 5 * br + 10 * bq;
    let bishops = b.white_bishops | b.black_bishops;
    &&& b.white_pawns == 0
    &&& b.black_pawns == 0
    &&& {
        ||| wt == 0 && bt == 0
        ||| wt == 3 && wn == 1 && bt == 0
        ||| bt == 3 && bn == 1 && wt == 0
        ||| wb + bb > 0 && wn == 0 && wr == 0 && wq == 0 && bn == 0 && br == 0 && bq == 0
            && (bishops & b.tables.white_squares == 0 || bishops & b.tables.black_squares == 0)
    }
}

/// The material of `a` is that of `b` with the colours exchanged: each
/// white piece set of one is the black piece set of the other.
pub open spec fn colours_swapped(a: Board, b: Board) -> bool {
    &&& a.white_pawns == b.black_pawns && a.black_pawns == b.white_pawns
    &&& a.white_knights == b.black_knights && a.black_knights == b.white_knights
    &&& a.white_bishops == b.black_bishops && a.black_bishops == b.white_bishops
    &&& a.white_rooks == b.black_rooks && a.black_rooks == b.white_rooks
    &&& a.white_queens == b.black_queens && a.black_queens == b.white_queens
    &&& a.tables == b.tables
}

/// Whether the material cannot mate does not depend on which side owns
/// it: exchanging the colours of all pieces keeps the answer.
pub proof fn law_insufficient_material_colour_blind(a: Board, b: Board)
    requires
        colours_swapped(a, b),
    ensures
        insufficient_material(a) == insufficient_material(b),
{
    let x = a.white_bishops;
    let y = a.black_bishops;
    assert(x | y == y | x) by (bit_vector);
}

/// A king with a lone knight against a bare king cannot mate, whichever
/// side has the knight: such a position ends the game.
pub proof fn law_lone_knight_ends_game(b: Board)
    requires
        b.white_pawns == 0 && b.black_pawns == 0,
        b.white_bishops == 0 && b.black_bishops == 0,
        b.white_rooks == 0 && b.black_rooks == 0,
        b.white_queens == 0 && b.black_queens == 0,
        (b.white_knights == 0 && popcount(b.black_knights) == 1) || (b.black_knights == 0 && popcount(
            b.white_knights) == 1),
    ensures
        insufficient_material(b),
        end_of_game(b),
{
    lemma_popcount_zero();
}

/// Two bare kings cannot mate: such a position ends the game.
pub proof fn law_bare_kings_end_game(b: Board)
    requires
        b.white_pawns == 0 && b.black_pawns == 0,
        b.white_knights == 0 && b.black_knights == 0,
        b.white_bishops == 0 && b.black_bishops == 0,
        b.white_rooks == 0 && b.black_rooks == 0,
        b.white_queens == 0 && b.black_queens == 0,
    ensures
        insufficient_material(b),
        end_of_game(b),
{
    lemma_popcount_zero();
}

proof fn lemma_popcount_zero()
    ensures
        popcount(0u64) == 0,
{
    assert(popcount(0u64) == 0) by (bit_vector);
}

proof fn lemma_popcount_nonzero(x: u64)
    requires
        x != 0,
    ensures
        popcount(x) >= 1,
{
    assert(x != 0 ==> popcount(x) >= 1) by (bit_vector);
}

/// Kings with bishops only, all of them on squares of one colour, cannot
/// mate, whichever side owns the bishops: such a position ends the game.
pub proof fn law_same_coloured_bishops_end_game(b: Board)
    requires
        b.tables.wf(),
        b.white_pawns == 0 && b.black_pawns == 0,
        b.white_knights == 0 && b.black_knights == 0,
        b.white_rooks == 0 && b.black_rooks == 0,
        b.white_queens == 0 && b.black_queens == 0,
        b.white_bishops | b.black_bishops != 0,
        (forall|s: int| 0 <= s < 64 && #[trigger] has_bit(b.white_bishops | b.black_bishops, s) ==> (sfile(s) + srank(s))
            % 2 == 0) || (forall|s: int| 0 <= s < 64 && #[trigger] has_bit(b.white_bishops | b.black_bishops, s) ==> (
            sfile(s) + srank(s)) % 2 != 0),
    ensures
        insufficient_material(b),
        end_of_game(b),
{
    lemma_popcount_zero();
    let x = b.white_bishops | b.black_bishops;
    if b.white_bishops != 0 {
        lemma_popcount_nonzero(b.white_bishops);
    } else {
        let wb = b.white_bishops;
        let bb = b.black_bishops;
        assert(wb == 0 ==> wb | bb == bb) by (bit_vector);
        lemma_popcount_nonzero(b.black_bishops);
    }
    if forall|s: int| 0 <= s < 64 && #[trigger] has_bit(x, s) ==> (sfile(s) + srank(s)) % 2 == 0 {
        assert forall|s: int| 0 <= s < 64 implies #[trigger] has_bit(x & b.tables.white_squares, s) == has_bit(0u64, s) by {
            lemma_bit_and(x, b.tables.white_squares, s);
            law_square_colours(b.tables, s);
            lemma_bit_zero(s);
        }
        lemma_bits_ext(x & b.tables.white_squares, 0u64);
    } else {
        assert forall|s: int| 0 <= s < 64 implies #[trigger] has_bit(x & b.tables.black_squares, s) == has_bit(0u64, s) by {
            lemma_bit_and(x, b.tables.black_squares, s);
            law_square_colours(b.tables, s);
            lemma_bit_zero(s);
        }
        lemma_bits_ext(x & b.tables.black_squares, 0u64);
    }
}

/// The game is over: the side that moved left its king attacked, the side
/// to move has no legal move (mate or stalemate), the material cannot mate,
/// or fifty moves passed without a pawn move or a capture.
pub open spec fn end_of_game(b: Board) -> bool {
    ||| other_king_attacked(b)
    ||| legal_moves(b).len() == 0
    ||| insufficient_material(b)
    ||| b.fifty_move >= 100
}

impl Board {
    /// Whether the game has ended in this position (see `end_of_game`).
    pub fn is_end_of_game(&mut self) -> (r: bool)
        requires
            can_make(*old(self)),
        ensures
            r == end_of_game(*old(self)),
            final(self).wf(),
            final(self).same_state(*old(self)),
            other_king_attacked(*old(self)) ==> final(self).move_buffer@ == old(self).move_buffer@
                && final(self).move_buf_len@ == old(self).move_buf_len@,
            !other_king_attacked(*old(self)) ==> final(self).move_buffer@ == written(old(self).move_buffer@, 0,
                gen_moves(*old(self)))
                && final(self).move_buf_len@ == old(self).move_buf_len@.update(0, 0).update(1,
                gen_moves(*old(self)).len() as usize),
    {
        if self.is_other_king_attacked() {
            return true;
        }
        let ghost b0 = *self;
        let (legalmoves, end) = self.count_legal(0);
        let ghost bc = *self;
        self.move_buf_len.set(0, 0);
        self.move_buf_len.set(1, end);
        proof {
            Board::lemma_wf_frame(bc, *self);
        }
        if legalmoves == 0 {
            return true;
        }
        if self.white_pawns == 0 && self.black_pawns == 0 {
            let whiteknights = bit_cnt(self.white_knights);
            let whitebishops = bit_cnt(self.white_bishops);
            let whiterooks = bit_cnt(self.white_rooks);
            let whitequeens = bit_cnt(self.white_queens);
            let whitetotalmat = 3 * whiteknights + 3 * whitebishops + 5 * whiterooks + 10 * whitequeens;
            let blackknights = bit_cnt(self.black_knights);
            let blackbishops = bit_cnt(self.black_bishops);
            let blackrooks = bit_cnt(self.black_rooks);
            let blackqueens = bit_cnt(self.black_queens);
            let blacktotalmat = 3 * blackknights + 3 * blackbishops + 5 * blackrooks + 10 * blackqueens;
            if whitetotalmat == 0 && blacktotalmat == 0 {
                return true;
            }
            if (whitetotalmat == 3 && whiteknights == 1 && blacktotalmat == 0) || (blacktotalmat == 3
                && blackknights == 1 && whitetotalmat == 0) {
                return true;
            }
            if whitebishops + blackbishops > 0 {
                if whiteknights == 0 && whiterooks == 0 && whitequeens == 0 && blackknights == 0
                    && blackrooks == 0 && blackqueens == 0 {
                    let bishops = self.white_bishops | self.black_bishops;
                    if bishops & self.tables.white_squares == 0 || bishops & self.tables.black_squares == 0 {
                        return true;
                    }
                }
            }
        }
        if self.fifty_move >= 100 {
            return true;
        }
        false
    }
}


/// The position of the first move of `s`, from `i` on, whose UCI notation is
/// `u`; the length of `s` when there is none.
pub open spec fn find_uci(s: Seq<Movim>, u: Seq<char>, i: int) -> int
    decreases s.len() - i,
{
    if i < 0 || i >= s.len() {
        s.len() as int
    } else if uci_chars(s[i]) == u {
        i
    } else {
        find_uci(s, u, i + 1)
    }
}

/// The position of the first legal move with the UCI `u`.
pub(crate) fn find_legal_uci(legals: &Vec<LegalMove>, u: &String, Ghost(ms): Ghost<Seq<Movim>>) -> (idx: usize)
    requires
        legals.len() == ms.len(),
        forall|i: int| 0 <= i < legals.len() ==> (#[trigger] legals[i]).movim == ms[i] && legals[i].uci@
            == uci_chars(ms[i]),
    ensures
        idx == find_uci(ms, u@, 0),
{
    let mut i: usize = 0;
    while i < legals.len()
        invariant
            i <= legals.len(),
            legals.len() == ms.len(),
            forall|j: int| 0 <= j < legals.len() ==> (#[trigger] legals[j]).movim == ms[j] && legals[j].uci@
                == uci_chars(ms[j]),
            find_uci(ms, u@, i as int) == find_uci(ms, u@, 0),
        decreases legals.len() - i,
    {
        if legals[i].uci == *u {
            return i;
        }
        i = i + 1;
    }
    i
}

/// What playing the `m` found among the legal moves leaves on the board.
pub open spec fn played(b: Board, m: Movim, n: Board) -> bool {
    &&& pos_after(b, m, n)
    &&& n.fifty_move == fifty_after(b.fifty_move, m)
    &&& n.full_moves == full_after(b.full_moves, m)
    &&& n.end_of_search == b.end_of_search + 1
    &&& n.game_line.len() == b.game_line.len()
    &&& n.game_line@.take(n.end_of_search as int) == b.game_line@.take(b.end_of_search as int).push(record_of(b, m))
    &&& n.view_rotated == b.view_rotated
    &&& n.end_of_game == b.end_of_game
}

impl Board {
    /// Plays the legal move `legal` (found on a board in the same state
    /// `b0`), with the SAN `san`.
    pub(crate) fn play_with_san(&mut self, legal: LegalMove, san: String, Ghost(b0): Ghost<Board>) -> (r: LegalMove)
        requires
            can_make(*old(self)),
            old(self).same_state(b0),
            b0.move_ok(legal.movim),
        ensures
            r.movim == legal.movim,
            r.uci@ == legal.uci@,
            r.san@ == san@,
            played(b0, legal.movim, *final(self)),
            final(self).undo_ok(legal.movim),
    {
        let m = legal.movim;
        let mut lm = legal;
        lm.set_san(san);
        let ghost bs = *self;
        self.make_move(m);
        proof {
            law_made_move_can_be_undone(bs, m, *self);
            lemma_make_move_pos(bs, m, *self);
            assert forall|n: Board| pos_after(bs, m, n) == pos_after(b0, m, n) by {}
            assert(record_of(bs, m) == record_of(b0, m));
            assert(self.game_line@.take(self.end_of_search as int) =~= b0.game_line@.take(b0.end_of_search as int).push(record_of(b0, m))) by {
                assert forall|j: int| 0 <= j < b0.end_of_search implies #[trigger] self.game_line[j] == b0.game_line[j] by {
                    assert(bs.game_line@.take(bs.end_of_search as int)[j] == b0.game_line@.take(b0.end_of_search as int)[j]);
                }
            }
        }
        lm
    }

    /// Plays the legal move `legal` (found on a board in the same state),
    /// with its SAN.
    fn play_legal(&mut self, legal: LegalMove, Ghost(b0): Ghost<Board>) -> (r: LegalMove)
        requires
            can_make_two(*old(self)),
            old(self).same_state(b0),
            b0.move_ok(legal.movim),
            old(self).move_buf_len[1] == 0,
            old(self).move_buf_len[0] == 0,
        ensures
            r.movim == legal.movim,
            r.uci@ == legal.uci@,
            r.san@ == san_disambig_chars(b0, legal.movim),
            played(b0, legal.movim, *final(self)),
            final(self).undo_ok(legal.movim),
    {
        let m = legal.movim;
        proof {
            assert(crate::displaymove::first_free_ply(self.move_buf_len@, 1) == 1);
        }
        let ghost bl = *self;
        let san = get_san_disambig(self, m);
        proof { lemma_san_congruent(bl, b0, m); }
        self.play_with_san(legal, san, Ghost(b0))
    }

    /// Plays the legal move whose UCI notation is `uci_str` ("e2e4",
    /// "e7e8q", "e1g1") and returns it with its UCI and SAN; when no legal
    /// move has that notation, returns an empty move and leaves the position
    /// as it was.
    pub fn make_uci_move(&mut self, uci_str: &str) -> (r: LegalMove)
        requires
            can_make_two(*old(self)),
        ensures
            ({
                let legal = legal_moves(*old(self));
                let idx = find_uci(legal, uci_str@, 0);
                if idx < legal.len() {
                    &&& r.movim == legal[idx]
                    &&& r.uci@ == uci_chars(legal[idx])
                    &&& r.san@ == san_disambig_chars(*old(self), legal[idx])
                    &&& old(self).move_ok(legal[idx])
                    &&& played(*old(self), legal[idx], *final(self))
                    &&& final(self).undo_ok(legal[idx])
                } else {
                    &&& r.movim.move_int == 0
                    &&& r.uci@ == Seq::<char>::empty()
                    &&& r.san@ == Seq::<char>::empty()
                    &&& final(self).wf()
                    &&& final(self).same_state(*old(self))
                }
            }),
    {
        let ghost b0 = *self;
        let mut legals = self.get_legals();
        let target = uci_str.to_owned();
        let idx = find_legal_uci(&legals, &target, Ghost(legal_moves(b0)));
        if idx < legals.len() {
            let lm = legals.remove(idx);
            self.play_legal(lm, Ghost(b0))
        } else {
            LegalMove::new()
        }
    }
}
}
