use vstd::prelude::*;
use crate::bitops::{has_bit, first_one, lemma_bit_and, lemma_bit_or, lemma_bit_not, lemma_bit_single,
    lemma_bit_zero, lemma_clear_bit_smaller};
use crate::board::{Board, attacked, lemma_toggle, lemma_attacks_congruent, is_ep_move, opp_pawn};
use crate::globs::{is_piece, is_white_piece, is_black_piece, rank_of, ranks, WHITE_OO_CASTL,
    WHITE_OOO_CASTL, BLACK_OO_CASTL, BLACK_OOO_CASTL};
use crate::movim::{Movim, bishopmoves_spec, rookmoves_spec, queenmoves_spec, mov_bishopmoves,
    mov_rookmoves, mov_queenmoves};

verus! {

// The pseudo-legal move generator: every move of the side to move that
// follows the piece's movement, without looking whether it leaves the own
// king in check.  Pieces are taken in the order pawns, knights, bishops,
// rooks, queens, king; squares and targets from a1 upwards.

/// The move with the given fields.
pub open spec fn pack(f: u32, t: u32, p: u32, c: u32, pr: u32) -> Movim {
    Movim { move_int: f | (t << 6u32) | (p << 12u32) | (c << 16u32) | (pr << 20u32) }
}

/// The fields of a packed move are the ones it was packed from.
pub proof fn lemma_pack(f: u32, t: u32, p: u32, c: u32, pr: u32)
    requires
        f < 64,
        t < 64,
        p < 16,
        c < 16,
        pr < 16,
    ensures
        pack(f, t, p, c, pr).from_sq() == f,
        pack(f, t, p, c, pr).to_sq() == t,
        pack(f, t, p, c, pr).piec() == p,
        pack(f, t, p, c, pr).capt() == c,
        pack(f, t, p, c, pr).prom() == pr,
        pack(f, t, p, c, pr).high() == 0,
        f & 0x3f == f,
        t & 0x3f == t,
        p & 0xf == p,
        c & 0xf == c,
        pr & 0xf == pr,
        0u32 >> 24u32 == 0,
{
    assert({
        let m = f | (t << 6u32) | (p << 12u32) | (c << 16u32) | (pr << 20u32);
        &&& m & 0x3f == f
        &&& (m >> 6u32) & 0x3f == t
        &&& (m >> 12u32) & 0xf == p
        &&& (m >> 16u32) & 0xf == c
        &&& (m >> 20u32) & 0xf == pr
        &&& m >> 24u32 == 0
        &&& f & 0x3f == f
        &&& t & 0x3f == t
        &&& p & 0xf == p
        &&& c & 0xf == c
        &&& pr & 0xf == pr
        &&& 0u32 >> 24u32 == 0
    }) by (bit_vector)
        requires
            f < 64,
            t < 64,
            p < 16,
            c < 16,
            pr < 16,
    ;
}

/// A move with the unused high bits clear is the packing of its fields.
pub proof fn lemma_unpack(m: Movim)
    requires
        m.high() == 0,
    ensures
        m == pack(m.from_sq(), m.to_sq(), m.piec(), m.capt(), m.prom()),
{
    let x = m.move_int;
    assert(x == (x & 0x3f) | (((x >> 6u32) & 0x3f) << 6u32) | (((x >> 12u32) & 0xf) << 12u32)
        | (((x >> 16u32) & 0xf) << 16u32) | (((x >> 20u32) & 0xf) << 20u32)) by (bit_vector)
        requires
            x >> 24u32 == 0,
    ;
}

/// The four castling moves are the king's two-square steps, marked by a
/// king in the promotion field.
pub proof fn lemma_castle_moves()
    ensures
        (Movim { move_int: WHITE_OO_CASTL }) == pack(4, 6, 2, 0, 2),
        (Movim { move_int: WHITE_OOO_CASTL }) == pack(4, 2, 2, 0, 2),
        (Movim { move_int: BLACK_OO_CASTL }) == pack(60, 62, 10, 0, 10),
        (Movim { move_int: BLACK_OOO_CASTL }) == pack(60, 58, 10, 0, 10),
{
    assert({
        &&& 4u32 | (6u32 << 6u32) | (2u32 << 12u32) | (0u32 << 16u32) | (2u32 << 20u32) == 2105732u32
        &&& 4u32 | (2u32 << 6u32) | (2u32 << 12u32) | (0u32 << 16u32) | (2u32 << 20u32) == 2105476u32
        &&& 60u32 | (62u32 << 6u32) | (10u32 << 12u32) | (0u32 << 16u32) | (10u32 << 20u32) == 10530748u32
        &&& 60u32 | (58u32 << 6u32) | (10u32 << 12u32) | (0u32 << 16u32) | (10u32 << 20u32) == 10530492u32
    }) by (bit_vector);
}

/// The concatenation of `f(i)` over the set bits `i < n` of `bits`, lowest first.
pub open spec fn collect(bits: u64, n: int, f: spec_fn(int) -> Seq<Movim>) -> Seq<Movim>
    decreases n,
{
    if n <= 0 {
        Seq::empty()
    } else {
        collect(bits, n - 1, f) + if has_bit(bits, n - 1) { f(n - 1) } else { Seq::empty() }
    }
}

/// Clear bits add nothing.
pub proof fn lemma_collect_skip(bits: u64, lo: int, hi: int, f: spec_fn(int) -> Seq<Movim>)
    requires
        0 <= lo <= hi,
        forall|i: int| lo <= i < hi ==> !#[trigger] has_bit(bits, i),
    ensures
        collect(bits, hi, f) == collect(bits, lo, f),
    decreases hi - lo,
{
    if hi > lo {
        lemma_collect_skip(bits, lo, hi - 1, f);
        assert(!has_bit(bits, hi - 1));
        assert(collect(bits, hi, f) =~= collect(bits, hi - 1, f));
    }
}

/// `k` is the code of a piece of the side to move.
pub open spec fn own_piece(b: Board, k: int) -> bool {
    if b.next_move == 1 { is_black_piece(k) } else { is_white_piece(k) }
}

/// The squares a pawn on `from` can step or capture to.
pub open spec fn pawn_targets(b: Board, k: int, from: int) -> u64 {
    let t = b.tables;
    let free = !b.occupied_squares;
    if k == 1 {
        let single = t.white_pawn_moves[from] & free;
        let pushes = if rank_of(from) == 2 && single != 0 {
            single | (t.white_pawn_double_moves[from] & free)
        } else {
            single
        };
        pushes | (t.white_pawn_attacks[from] & b.black_pieces)
    } else {
        let single = t.black_pawn_moves[from] & free;
        let pushes = if rank_of(from) == 7 && single != 0 {
            single | (t.black_pawn_double_moves[from] & free)
        } else {
            single
        };
        pushes | (t.black_pawn_attacks[from] & b.white_pieces)
    }
}

/// The squares the piece `k` on `from` can go to: empty squares and squares
/// of the other side, as far as its movement reaches.
pub open spec fn targets(b: Board, k: int, from: int) -> u64 {
    let t = b.tables;
    let occ = b.occupied_squares;
    let tgt = if k < 8 { !b.white_pieces } else { !b.black_pieces };
    let kind = k % 8;
    if kind == 1 {
        pawn_targets(b, k, from)
    } else if kind == 3 {
        t.knight_attacks[from] & tgt
    } else if kind == 5 {
        bishopmoves_spec(t, from, tgt, occ)
    } else if kind == 6 {
        rookmoves_spec(t, from, tgt, occ)
    } else if kind == 7 {
        queenmoves_spec(t, from, tgt, occ)
    } else {
        t.king_attacks[from] & tgt
    }
}

/// A pawn move to the last rank.
pub open spec fn promotes(k: int, to: int) -> bool {
    (k == 1 && rank_of(to) == 8) || (k == 9 && rank_of(to) == 1)
}

/// The moves of piece `k` from `from` to `to`: one, or four promotions
/// (queen, rook, bishop, knight).
pub open spec fn to_moves(b: Board, k: int, from: int, to: int) -> Seq<Movim> {
    let c = b.square[to] as u32;
    let f = from as u32;
    let t = to as u32;
    let p = k as u32;
    if promotes(k, to) {
        if k == 1 {
            seq![pack(f, t, p, c, 7), pack(f, t, p, c, 6), pack(f, t, p, c, 5), pack(f, t, p, c, 3)]
        } else {
            seq![pack(f, t, p, c, 15), pack(f, t, p, c, 14), pack(f, t, p, c, 13), pack(f, t, p, c, 11)]
        }
    } else {
        seq![pack(f, t, p, c, 0)]
    }
}

pub open spec fn to_moves_fn(b: Board, k: int, from: int) -> spec_fn(int) -> Seq<Movim> {
    |to: int| to_moves(b, k, from, to)
}


/// The move `m` is one of piece `k`, and it goes to an empty square or to
/// one of a piece of the other side.
pub open spec fn lands_free(b: Board, k: int, m: Movim) -> bool {
    let c = b.square[m.to_sq() as int] as int;
    &&& m.piec() == k
    &&& c == 0 || (if k < 8 { is_black_piece(c) } else { is_white_piece(c) })
    &&& is_ep_move(m) ==> m.capt() == opp_pawn(k)
}

/// A target square is empty or holds a piece of the other side.
proof fn lemma_in_targets(b: Board, k: int, from: int, to: int)
    requires
        b.wf(),
        is_piece(k),
        0 <= from < 64,
        0 <= to < 64,
        has_bit(targets(b, k, from), to),
    ensures
        b.square[to] == 0 || (if k < 8 { is_black_piece(b.square[to] as int) } else {
            is_white_piece(b.square[to] as int)
        }),
{
    let t = b.tables;
    let occ = b.occupied_squares;
    let free = !occ;
    let tgt = if k < 8 { !b.white_pieces } else { !b.black_pieces };
    lemma_bit_not(occ, to);
    lemma_bit_not(b.white_pieces, to);
    lemma_bit_not(b.black_pieces, to);
    assert(has_bit(b.occupied_squares, to) <==> b.square[to] != 0);
    assert(has_bit(b.white_pieces, to) <==> is_white_piece(b.square[to] as int));
    assert(has_bit(b.black_pieces, to) <==> is_black_piece(b.square[to] as int));
    if k % 8 == 1 {
        if k == 1 {
            let single = t.white_pawn_moves[from] & free;
            let dbl = t.white_pawn_double_moves[from] & free;
            let pushes = if rank_of(from) == 2 && single != 0 { single | dbl } else { single };
            lemma_bit_or(pushes, t.white_pawn_attacks[from] & b.black_pieces, to);
            lemma_bit_and(t.white_pawn_attacks[from], b.black_pieces, to);
            lemma_bit_or(single, dbl, to);
            lemma_bit_and(t.white_pawn_moves[from], free, to);
            lemma_bit_and(t.white_pawn_double_moves[from], free, to);
        } else {
            let single = t.black_pawn_moves[from] & free;
            let dbl = t.black_pawn_double_moves[from] & free;
            let pushes = if rank_of(from) == 7 && single != 0 { single | dbl } else { single };
            lemma_bit_or(pushes, t.black_pawn_attacks[from] & b.white_pieces, to);
            lemma_bit_and(t.black_pawn_attacks[from], b.white_pieces, to);
            lemma_bit_or(single, dbl, to);
            lemma_bit_and(t.black_pawn_moves[from], free, to);
            lemma_bit_and(t.black_pawn_double_moves[from], free, to);
        }
    } else {
        assert(has_bit(tgt, to)) by {
            if k % 8 == 3 {
                lemma_bit_and(t.knight_attacks[from], tgt, to);
            } else if k % 8 == 5 || k % 8 == 6 || k % 8 == 7 {
                let ra = t.rank_attacks[from][crate::movim::rank_idx(t, from, occ)];
                let fa = t.file_attacks[from][crate::movim::file_idx(t, from, occ)];
                let d8 = t.diaga8h1_attacks[from][crate::movim::diag8_idx(t, from, occ)];
                let d1 = t.diaga1h8_attacks[from][crate::movim::diag1_idx(t, from, occ)];
                lemma_bit_or(d8 & tgt, d1 & tgt, to);
                lemma_bit_or(ra & tgt, fa & tgt, to);
                lemma_bit_or((d8 & tgt) | (d1 & tgt), (ra & tgt) | (fa & tgt), to);
                lemma_bit_and(ra, tgt, to);
                lemma_bit_and(fa, tgt, to);
                lemma_bit_and(d8, tgt, to);
                lemma_bit_and(d1, tgt, to);
            } else {
                lemma_bit_and(t.king_attacks[from], tgt, to);
            }
        }
    }
}

/// The moves to a target square fit the board.
proof fn lemma_to_moves_ok(b: Board, k: int, from: int, to: int)
    requires
        b.wf(),
        is_piece(k),
        0 <= from < 64,
        0 <= to < 64,
        b.square[from] == k,
        has_bit(targets(b, k, from), to),
    ensures
        forall|j: int| 0 <= j < to_moves(b, k, from, to).len() ==> b.move_ok(#[trigger] to_moves(b, k, from, to)[j]),
        forall|j: int| 0 <= j < to_moves(b, k, from, to).len() ==> lands_free(b, k, #[trigger] to_moves(b, k, from, to)[j]),
{
    lemma_in_targets(b, k, from, to);
    let c = b.square[to] as u32;
    assert(crate::globs::valid_code(b.square[to] as int));
    lemma_pack(from as u32, to as u32, k as u32, c, 0);
    lemma_pack(from as u32, to as u32, k as u32, c, 3);
    lemma_pack(from as u32, to as u32, k as u32, c, 5);
    lemma_pack(from as u32, to as u32, k as u32, c, 6);
    lemma_pack(from as u32, to as u32, k as u32, c, 7);
    lemma_pack(from as u32, to as u32, k as u32, c, 11);
    lemma_pack(from as u32, to as u32, k as u32, c, 13);
    lemma_pack(from as u32, to as u32, k as u32, c, 14);
    lemma_pack(from as u32, to as u32, k as u32, c, 15);
}

/// Lengths of the step tables.
proof fn lemma_step_tables(b: Board)
    requires
        b.wf(),
    ensures
        b.tables.white_pawn_attacks.len() == 64,
        b.tables.white_pawn_moves.len() == 64,
        b.tables.white_pawn_double_moves.len() == 64,
        b.tables.black_pawn_attacks.len() == 64,
        b.tables.black_pawn_moves.len() == 64,
        b.tables.black_pawn_double_moves.len() == 64,
        b.tables.knight_attacks.len() == 64,
        b.tables.king_attacks.len() == 64,
{
    let t = b.tables;
    assert(t.t64(0) == t.white_pawn_attacks);
    assert(t.t64(1) == t.white_pawn_moves);
    assert(t.t64(2) == t.white_pawn_double_moves);
    assert(t.t64(3) == t.black_pawn_attacks);
    assert(t.t64(4) == t.black_pawn_moves);
    assert(t.t64(5) == t.black_pawn_double_moves);
    assert(t.t64(6) == t.knight_attacks);
    assert(t.t64(7) == t.king_attacks);
}

/// A move from its fields, set one by one.
fn new_move(f: u32, t: u32, p: u32, c: u32, pr: u32) -> (m: Movim)
    requires
        f < 64,
        t < 64,
        p < 16,
        c < 16,
        pr < 16,
    ensures
        m == pack(f, t, p, c, pr),
{
    proof { lemma_pack(f, t, p, c, pr); }
    let mut m = Movim::new();
    m.set_from(f);
    m.set_to_sq(t);
    m.set_piec(p);
    m.set_capt(c);
    m.set_prom(pr);
    proof { lemma_unpack(m); }
    m
}

impl Board {
    /// The squares the piece `k` on `from` can go to.
    fn targets_exec(&self, k: u32, from: u32) -> (r: u64)
        requires
            self.wf(),
            is_piece(k as int),
            from < 64,
        ensures
            r == targets(*self, k as int, from as int),
    {
        proof { lemma_step_tables(*self); }
        let t = &self.tables;
        let f = from as usize;
        let occ = self.occupied_squares;
        if k == 1 {
            let free = !occ;
            let mut temp_move = t.white_pawn_moves[f] & free;
            if ranks(f) == 2 && temp_move != 0 {
                temp_move = temp_move | (t.white_pawn_double_moves[f] & free);
            }
            temp_move | (t.white_pawn_attacks[f] & self.black_pieces)
        } else if k == 9 {
            let free = !occ;
            let mut temp_move = t.black_pawn_moves[f] & free;
            if ranks(f) == 7 && temp_move != 0 {
                temp_move = temp_move | (t.black_pawn_double_moves[f] & free);
            }
            temp_move | (t.black_pawn_attacks[f] & self.white_pieces)
        } else {
            let target = if k < 8 { !self.white_pieces } else { !self.black_pieces };
            let kind = k % 8;
            if kind == 3 {
                t.knight_attacks[f] & target
            } else if kind == 5 {
                mov_bishopmoves(from, target, occ, t)
            } else if kind == 6 {
                mov_rookmoves(from, target, occ, t)
            } else if kind == 7 {
                mov_queenmoves(from, target, occ, t)
            } else {
                t.king_attacks[f] & target
            }
        }
    }

    /// Adds the moves of piece `k` from `from` to `to`.
    fn push_to_moves(&self, k: u32, from: u32, to: u32, out: &mut Vec<Movim>)
        requires
            self.wf(),
            is_piece(k as int),
            from < 64,
            to < 64,
        ensures
            final(out)@ == old(out)@ + to_moves(*self, k as int, from as int, to as int),
    {
        let c = self.square[to as usize];
        assert(crate::globs::valid_code(c as int));
        let c = c as u32;
        let tr = ranks(to as usize);
        if (k == 1 && tr == 8) || (k == 9 && tr == 1) {
            let s: u32 = if k == 1 { 0 } else { 8 };
            out.push(new_move(from, to, k, c, 7 + s));
            out.push(new_move(from, to, k, c, 6 + s));
            out.push(new_move(from, to, k, c, 5 + s));
            out.push(new_move(from, to, k, c, 3 + s));
        } else {
            out.push(new_move(from, to, k, c, 0));
        }
        proof {
            assert(final(out)@ =~= old(out)@ + to_moves(*self, k as int, from as int, to as int));
        }
    }
}


/// The pawn `k` on `from` can take en passant: the en-passant square is one
/// of its capture squares, it is empty and the pawn to be taken stands
/// behind it.
pub open spec fn ep_capture_ok(b: Board, k: int, from: int) -> bool {
    let ep = b.ep_square as int;
    let att = if k == 1 { b.tables.white_pawn_attacks[from] } else { b.tables.black_pawn_attacks[from] };
    &&& ep != 0
    &&& has_bit(att, ep)
    &&& b.square[ep] == 0
    &&& if k == 1 { ep >= 8 && b.square[ep - 8] == 9 } else { ep < 56 && b.square[ep + 8] == 1 }
}

/// The en-passant capture of the pawn `k` on `from`.
pub open spec fn ep_move(b: Board, k: int, from: int) -> Movim {
    pack(from as u32, b.ep_square as u32, k as u32, if k == 1 { 9 } else { 1 }, k as u32)
}

/// The king `k` on `from` can castle short: the right is kept, king and rook
/// stand on their squares, the squares between them are empty and neither
/// the king's square nor the two it crosses or lands on is attacked.
pub open spec fn castle_oo_ok(b: Board, k: int, from: int) -> bool {
    if k == 2 {
        &&& b.castle_white & 1u8 != 0
        &&& from == 4
        &&& b.square[7] == 6
        &&& b.tables.mask_fg[0] & b.occupied_squares == 0
        &&& !attacked(b, b.tables.mask_eg[0], 1)
    } else {
        &&& b.castle_black & 1u8 != 0
        &&& from == 60
        &&& b.square[63] == 14
        &&& b.tables.mask_fg[1] & b.occupied_squares == 0
        &&& !attacked(b, b.tables.mask_eg[1], 0)
    }
}

/// The king `k` on `from` can castle long.
pub open spec fn castle_ooo_ok(b: Board, k: int, from: int) -> bool {
    if k == 2 {
        &&& b.castle_white & 2u8 != 0
        &&& from == 4
        &&& b.square[0] == 6
        &&& b.tables.mask_bd[0] & b.occupied_squares == 0
        &&& !attacked(b, b.tables.mask_ce[0], 1)
    } else {
        &&& b.castle_black & 2u8 != 0
        &&& from == 60
        &&& b.square[56] == 14
        &&& b.tables.mask_bd[1] & b.occupied_squares == 0
        &&& !attacked(b, b.tables.mask_ce[1], 0)
    }
}

/// The moves that come after the ordinary ones of a piece: a pawn's
/// en-passant capture, a king's castlings (short first).
pub open spec fn extra_moves(b: Board, k: int, from: int) -> Seq<Movim> {
    if k == 1 || k == 9 {
        if ep_capture_ok(b, k, from) { seq![ep_move(b, k, from)] } else { Seq::empty() }
    } else if k == 2 || k == 10 {
        let oo = if k == 2 { Movim { move_int: WHITE_OO_CASTL } } else { Movim { move_int: BLACK_OO_CASTL } };
        let ooo = if k == 2 { Movim { move_int: WHITE_OOO_CASTL } } else { Movim { move_int: BLACK_OOO_CASTL } };
        (if castle_oo_ok(b, k, from) { seq![oo] } else { Seq::empty() })
            + (if castle_ooo_ok(b, k, from) { seq![ooo] } else { Seq::empty() })
    } else {
        Seq::empty()
    }
}

/// All the moves of the piece `k` standing on `from`.
pub open spec fn square_moves(b: Board, k: int, from: int) -> Seq<Movim> {
    collect(targets(b, k, from), 64, to_moves_fn(b, k, from)) + extra_moves(b, k, from)
}

pub open spec fn square_moves_fn(b: Board, k: int) -> spec_fn(int) -> Seq<Movim> {
    |from: int| square_moves(b, k, from)
}

/// All the moves of the pieces with code `k`.
pub open spec fn piece_moves(b: Board, k: int) -> Seq<Movim> {
    collect(b.bb_of(k), 64, square_moves_fn(b, k))
}

/// The pseudo-legal moves of the side to move, in the generator's order.
pub open spec fn gen_moves(b: Board) -> Seq<Movim> {
    if b.next_move == 1 {
        piece_moves(b, 9) + piece_moves(b, 11) + piece_moves(b, 13) + piece_moves(b, 14)
            + piece_moves(b, 15) + piece_moves(b, 10)
    } else {
        piece_moves(b, 1) + piece_moves(b, 3) + piece_moves(b, 5) + piece_moves(b, 6)
            + piece_moves(b, 7) + piece_moves(b, 2)
    }
}

/// A mask that meets no occupied square leaves its squares empty.
proof fn lemma_mask_clear(mask: u64, occ: u64, i: int)
    requires
        mask & occ == 0,
        0 <= i < 64,
        has_bit(mask, i),
    ensures
        !has_bit(occ, i),
{
    lemma_bit_and(mask, occ, i);
    lemma_bit_zero(i);
}

/// `x & (1 << k)` tests bit `k`.
proof fn lemma_bit_test(x: u64, k: u64)
    requires
        k < 64,
    ensures
        (x & (1u64 << k) != 0) == has_bit(x, k as int),
{
    lemma_bit_and(x, 1u64 << k, k as int);
    lemma_bit_single(k, k as int);
    if !has_bit(x, k as int) {
        assert forall|i: int| 0 <= i < 64 implies #[trigger] has_bit(x & (1u64 << k), i) == has_bit(0u64, i) by {
            lemma_bit_and(x, 1u64 << k, i);
            lemma_bit_single(k, i);
            lemma_bit_zero(i);
        }
        crate::bitops::lemma_bits_ext(x & (1u64 << k), 0u64);
    } else {
        lemma_bit_zero(k as int);
    }
}

/// The squares of the castling masks.
proof fn lemma_castle_masks(b: Board)
    requires
        b.wf(),
    ensures
        has_bit(b.tables.mask_fg[0], 5) && has_bit(b.tables.mask_fg[0], 6),
        has_bit(b.tables.mask_fg[1], 61) && has_bit(b.tables.mask_fg[1], 62),
        has_bit(b.tables.mask_bd[0], 2) && has_bit(b.tables.mask_bd[0], 3),
        has_bit(b.tables.mask_bd[1], 58) && has_bit(b.tables.mask_bd[1], 59),
{
    lemma_bit_or(1u64 << 5u64, 1u64 << 6u64, 5);
    lemma_bit_or(1u64 << 5u64, 1u64 << 6u64, 6);
    lemma_bit_single(5, 5);
    lemma_bit_single(6, 6);
    lemma_bit_or(1u64 << 61u64, 1u64 << 62u64, 61);
    lemma_bit_or(1u64 << 61u64, 1u64 << 62u64, 62);
    lemma_bit_single(61, 61);
    lemma_bit_single(62, 62);
    lemma_bit_or((1u64 << 1u64) | (1u64 << 2u64), 1u64 << 3u64, 2);
    lemma_bit_or((1u64 << 1u64) | (1u64 << 2u64), 1u64 << 3u64, 3);
    lemma_bit_or(1u64 << 1u64, 1u64 << 2u64, 2);
    lemma_bit_single(2, 2);
    lemma_bit_single(3, 3);
    lemma_bit_or((1u64 << 57u64) | (1u64 << 58u64), 1u64 << 59u64, 58);
    lemma_bit_or((1u64 << 57u64) | (1u64 << 58u64), 1u64 << 59u64, 59);
    lemma_bit_or(1u64 << 57u64, 1u64 << 58u64, 58);
    lemma_bit_single(58, 58);
    lemma_bit_single(59, 59);
}

impl Board {
    /// Adds the en-passant capture or the castlings of the piece on `from`.
    #[verifier::rlimit(40)]
    fn push_extras(&self, k: u32, from: u32, out: &mut Vec<Movim>)
        requires
            self.wf(),
            is_piece(k as int),
            from < 64,
            self.square[from as int] == k,
        ensures
            final(out)@ == old(out)@ + extra_moves(*self, k as int, from as int),
            forall|j: int| old(out).len() <= j < final(out).len() ==> self.move_ok(#[trigger] final(out)@[j]),
            forall|j: int| old(out).len() <= j < final(out).len() ==> lands_free(*self, k as int, #[trigger] final(out)@[j]),
    {
        proof { lemma_step_tables(*self); }
        if k == 1 || k == 9 {
            let ep = self.ep_square;
            if ep != 0 {
                let att = if k == 1 {
                    self.tables.white_pawn_attacks[from as usize]
                } else {
                    self.tables.black_pawn_attacks[from as usize]
                };
                proof { lemma_bit_test(att, ep as u64); }
                if att & (1u64 << (ep as u64)) != 0 {
                    let e = ep as usize;
                    let behind = if k == 1 { e >= 8 && self.square[e - 8] == 9 } else {
                        e < 56 && self.square[e + 8] == 1
                    };
                    if self.square[e] == 0 && behind {
                        let opp: u32 = if k == 1 { 9 } else { 1 };
                        proof { lemma_pack(from, ep as u32, k, opp, k); }
                        out.push(new_move(from, ep as u32, k, opp, k));
                    }
                }
            }
        } else if k == 2 || k == 10 {
            proof {
                lemma_castle_moves();
                lemma_castle_masks(*self);
                lemma_pack(4, 6, 2, 0, 2);
                lemma_pack(4, 2, 2, 0, 2);
                lemma_pack(60, 62, 10, 0, 10);
                lemma_pack(60, 58, 10, 0, 10);
            }
            let occ = self.occupied_squares;
            let side: usize = if k == 2 { 0 } else { 1 };
            let rights = if k == 2 { self.castle_white } else { self.castle_black };
            let home: u32 = if k == 2 { 4 } else { 60 };
            let rook: i32 = if k == 2 { 6 } else { 14 };
            let other: u8 = if k == 2 { 1 } else { 0 };
            if rights & 1 != 0 && from == home && self.square[(home + 3) as usize] == rook {
                if self.tables.mask_fg[side] & occ == 0 {
                    if !self.is_attacked(self.tables.mask_eg[side], other) {
                        proof {
                            lemma_mask_clear(self.tables.mask_fg[side as int], occ, home + 1);
                            lemma_mask_clear(self.tables.mask_fg[side as int], occ, home + 2);
                        }
                        out.push(Movim { move_int: if k == 2 { WHITE_OO_CASTL } else { BLACK_OO_CASTL } });
                    }
                }
            }
            if rights & 2 != 0 && from == home && self.square[(home - 4) as usize] == rook {
                if self.tables.mask_bd[side] & occ == 0 {
                    if !self.is_attacked(self.tables.mask_ce[side], other) {
                        proof {
                            lemma_mask_clear(self.tables.mask_bd[side as int], occ, home - 2);
                            lemma_mask_clear(self.tables.mask_bd[side as int], occ, home - 1);
                        }
                        out.push(Movim { move_int: if k == 2 { WHITE_OOO_CASTL } else { BLACK_OOO_CASTL } });
                    }
                }
            }
        }
        proof {
            assert(final(out)@ =~= old(out)@ + extra_moves(*self, k as int, from as int));
        }
    }

    /// Adds all the moves of the piece `k` standing on `from`.
    #[verifier::rlimit(40)]
    fn gen_square(&self, k: u32, from: u32, out: &mut Vec<Movim>)
        requires
            self.wf(),
            is_piece(k as int),
            from < 64,
            self.square[from as int] == k,
        ensures
            final(out)@ == old(out)@ + square_moves(*self, k as int, from as int),
            forall|j: int| old(out).len() <= j < final(out).len() ==> self.move_ok(#[trigger] final(out)@[j]),
            forall|j: int| old(out).len() <= j < final(out).len() ==> lands_free(*self, k as int, #[trigger] final(out)@[j]),
    {
        let tg = self.targets_exec(k, from);
        let ghost f = to_moves_fn(*self, k as int, from as int);
        let mut temp_move = tg;
        let ghost mut lo: int = 0;
        while temp_move != 0
            invariant
                self.wf(),
                is_piece(k as int),
                from < 64,
                self.square[from as int] == k,
                tg == targets(*self, k as int, from as int),
                f == to_moves_fn(*self, k as int, from as int),
                0 <= lo <= 64,
                forall|i: int| 0 <= i < 64 ==> (#[trigger] has_bit(temp_move, i) <==> (has_bit(tg, i) && i >= lo)),
                out@ == old(out)@ + collect(tg, lo, f),
                forall|j: int| old(out).len() <= j < out.len() ==> self.move_ok(#[trigger] out@[j]),
                forall|j: int| old(out).len() <= j < out.len() ==> lands_free(*self, k as int, #[trigger] out@[j]),
            decreases temp_move,
        {
            let to = first_one(temp_move);
            proof {
                assert forall|i: int| lo <= i < to implies !#[trigger] has_bit(tg, i) by {
                    assert(!has_bit(temp_move, i));
                }
                assert(has_bit(tg, to as int));
                lemma_collect_skip(tg, lo, to as int, f);
                lemma_to_moves_ok(*self, k as int, from as int, to as int);
                assert(collect(tg, to as int + 1, f) == collect(tg, to as int, f) + f(to as int));
            }
            self.push_to_moves(k, from, to, out);
            let ghost old_t = temp_move;
            proof { lemma_clear_bit_smaller(temp_move, to as u64); }
            temp_move = temp_move ^ (1u64 << (to as u64));
            proof {
                lo = to as int + 1;
                assert forall|i: int| 0 <= i < 64 implies (#[trigger] has_bit(temp_move, i) <==> (has_bit(tg, i) && i >= lo)) by {
                    lemma_toggle(old_t, to as u64, i);
                }
            }
        }
        proof {
            assert forall|i: int| lo <= i < 64 implies !#[trigger] has_bit(tg, i) by {
                lemma_bit_zero(i);
                assert(!has_bit(temp_move, i));
            }
            lemma_collect_skip(tg, lo, 64, f);
        }
        self.push_extras(k, from, out);
        proof {
            assert(final(out)@ =~= old(out)@ + square_moves(*self, k as int, from as int));
        }
    }
}


/// The buffer `buf` with the moves `s` written from position `idx` on:
/// what stands past them stays, and the buffer grows where they run past
/// its end.
pub open spec fn written(buf: Seq<Movim>, idx: int, s: Seq<Movim>) -> Seq<Movim> {
    if idx + s.len() <= buf.len() {
        buf.take(idx) + s + buf.skip(idx + s.len())
    } else {
        buf.take(idx) + s
    }
}

/// The written moves stand right after the kept head.
pub proof fn lemma_written_prefix(buf: Seq<Movim>, idx: int, s: Seq<Movim>)
    requires
        0 <= idx <= buf.len(),
    ensures
        written(buf, idx, s).len() >= idx + s.len(),
        written(buf, idx, s).take(idx + s.len()) == buf.take(idx) + s,
{
    assert(written(buf, idx, s).take(idx + s.len()) =~= buf.take(idx) + s);
}

/// Writes `out` into `buf` from position `idx` on.
fn write_moves(buf: &mut Vec<Movim>, idx: usize, out: &Vec<Movim>)
    requires
        idx <= old(buf).len(),
    ensures
        final(buf)@ == written(old(buf)@, idx as int, out@),
{
    let ghost b0 = buf@;
    let mut j: usize = 0;
    assert(buf@ =~= written(b0, idx as int, out@.take(0)));
    while j < out.len()
        invariant
            idx <= b0.len(),
            j <= out.len(),
            buf@ == written(b0, idx as int, out@.take(j as int)),
            buf.len() >= idx + j,
        decreases out.len() - j,
    {
        let ghost w0 = buf@;
        let pos = idx + j;
        let x = out[j];
        assert(out@.take(j as int + 1) =~= out@.take(j as int).push(x));
        if pos < buf.len() {
            buf.set(pos, x);
            assert(buf@ =~= written(b0, idx as int, out@.take(j as int + 1)));
        } else {
            buf.push(x);
            assert(buf@ =~= written(b0, idx as int, out@.take(j as int + 1)));
        }
        j = j + 1;
    }
    assert(out@.take(out.len() as int) =~= out@);
}


impl Board {
    /// The bitboard of the pieces with code `k`.
    fn bb_exec(&self, k: u32) -> (r: u64)
        requires
            is_piece(k as int),
        ensures
            r == self.bb_of(k as int),
    {
        if k == 1 { self.white_pawns } else if k == 2 { self.white_king }
        else if k == 3 { self.white_knights } else if k == 5 { self.white_bishops }
        else if k == 6 { self.white_rooks } else if k == 7 { self.white_queens }
        else if k == 9 { self.black_pawns } else if k == 10 { self.black_king }
        else if k == 11 { self.black_knights } else if k == 13 { self.black_bishops }
        else if k == 14 { self.black_rooks } else { self.black_queens }
    }

    /// Adds all the moves of the pieces with code `k`, square by square.
    fn gen_piece(&self, k: u32, out: &mut Vec<Movim>)
        requires
            self.wf(),
            is_piece(k as int),
        ensures
            final(out)@ == old(out)@ + piece_moves(*self, k as int),
            forall|j: int| old(out).len() <= j < final(out).len() ==> self.move_ok(#[trigger] final(out)@[j]),
            forall|j: int| old(out).len() <= j < final(out).len() ==> lands_free(*self, k as int, #[trigger] final(out)@[j]),
    {
        let bb = self.bb_exec(k);
        let ghost f = square_moves_fn(*self, k as int);
        let mut temp_piece = bb;
        let ghost mut lo: int = 0;
        while temp_piece != 0
            invariant
                self.wf(),
                is_piece(k as int),
                bb == self.bb_of(k as int),
                f == square_moves_fn(*self, k as int),
                0 <= lo <= 64,
                forall|i: int| 0 <= i < 64 ==> (#[trigger] has_bit(temp_piece, i) <==> (has_bit(bb, i) && i >= lo)),
                out@ == old(out)@ + collect(bb, lo, f),
                forall|j: int| old(out).len() <= j < out.len() ==> self.move_ok(#[trigger] out@[j]),
                forall|j: int| old(out).len() <= j < out.len() ==> lands_free(*self, k as int, #[trigger] out@[j]),
            decreases temp_piece,
        {
            let from = first_one(temp_piece);
            proof {
                assert forall|i: int| lo <= i < from implies !#[trigger] has_bit(bb, i) by {
                    assert(!has_bit(temp_piece, i));
                }
                assert(has_bit(bb, from as int));
                assert(has_bit(self.bb_of(k as int), from as int) <==> self.square[from as int] == k);
                lemma_collect_skip(bb, lo, from as int, f);
                assert(collect(bb, from as int + 1, f) == collect(bb, from as int, f) + f(from as int));
            }
            self.gen_square(k, from, out);
            let ghost old_t = temp_piece;
            proof { lemma_clear_bit_smaller(temp_piece, from as u64); }
            temp_piece = temp_piece ^ (1u64 << (from as u64));
            proof {
                lo = from as int + 1;
                assert forall|i: int| 0 <= i < 64 implies (#[trigger] has_bit(temp_piece, i) <==> (has_bit(bb, i) && i >= lo)) by {
                    lemma_toggle(old_t, from as u64, i);
                }
            }
        }
        proof {
            assert forall|i: int| lo <= i < 64 implies !#[trigger] has_bit(bb, i) by {
                lemma_bit_zero(i);
                assert(!has_bit(temp_piece, i));
            }
            lemma_collect_skip(bb, lo, 64, f);
        }
    }

    /// The pseudo-legal moves of the side to move, written into the move
    /// buffer from position `idx` on; returns the first free position.  The
    /// own king may be left in check: `get_legals` sorts those out.
    pub fn movegen(&mut self, idx: usize) -> (r: usize)
        requires
            old(self).wf(),
            idx <= old(self).move_buffer.len(),
        ensures
            final(self).move_buffer@ == written(old(self).move_buffer@, idx as int, gen_moves(*old(self))),
            r == idx + gen_moves(*old(self)).len(),
            final(self).move_buffer.len() >= r,
            final(self).move_buffer@.take(r as int) == old(self).move_buffer@.take(idx as int) + gen_moves(*old(self)),
            forall|i: int| idx <= i < r ==> old(self).move_ok(#[trigger] final(self).move_buffer@[i]),
            forall|i: int| idx <= i < r ==> {
                let m = #[trigger] final(self).move_buffer@[i];
                &&& own_piece(*old(self), m.piec() as int)
                &&& !own_piece(*old(self), old(self).square[m.to_sq() as int] as int)
                &&& m.capt() == (if is_ep_move(m) { opp_pawn(m.piec() as int) } else {
                    old(self).square[m.to_sq() as int] as int
                })
            },
            final(self).wf(),
            final(self).same_pieces(*old(self)),
            final(self).same_state(*old(self)),
            final(self).game_line@ == old(self).game_line@,
            final(self).move_buf_len@ == old(self).move_buf_len@,
    {
        let mut out: Vec<Movim> = Vec::new();
        let ghost b = *self;
        if self.next_move == 1 {
            self.gen_piece(9, &mut out);
            self.gen_piece(11, &mut out);
            self.gen_piece(13, &mut out);
            self.gen_piece(14, &mut out);
            self.gen_piece(15, &mut out);
            self.gen_piece(10, &mut out);
        } else {
            self.gen_piece(1, &mut out);
            self.gen_piece(3, &mut out);
            self.gen_piece(5, &mut out);
            self.gen_piece(6, &mut out);
            self.gen_piece(7, &mut out);
            self.gen_piece(2, &mut out);
        }
        assert(out@ =~= gen_moves(b));
        write_moves(&mut self.move_buffer, idx, &out);
        proof {
            crate::board::Board::lemma_wf_frame(b, *self);
            lemma_written_prefix(b.move_buffer@, idx as int, out@);
        }
        assert(self.move_buffer.len() >= idx + out.len());
        idx + out.len()
    }
}


/// The generated moves depend on the position only.
pub proof fn lemma_gen_congruent(a: Board, b: Board)
    requires
        a.same_position(b),
    ensures
        gen_moves(a) == gen_moves(b),
{
    lemma_attacks_congruent(a, b);
    assert forall|k: int| #[trigger] piece_moves(a, k) == piece_moves(b, k) by {
        assert forall|from: int| #[trigger] square_moves(a, k, from) == square_moves(b, k, from) by {
            assert(to_moves_fn(a, k, from) =~= to_moves_fn(b, k, from)) by {
                assert forall|to: int| #[trigger] to_moves(a, k, from, to) == to_moves(b, k, from, to) by {
                    assert(a.square[to] == b.square@[to]);
                }
            }
            assert(targets(a, k, from) == targets(b, k, from));
            assert(extra_moves(a, k, from) == extra_moves(b, k, from)) by {
                assert(a.square@ == b.square@);
            }
        }
        assert(square_moves_fn(a, k) =~= square_moves_fn(b, k));
        assert(a.bb_of(k) == b.bb_of(k));
    }
}
}
