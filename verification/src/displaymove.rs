use vstd::prelude::*;
use crate::globs::{file_char, file_of, rank_char, rank_of, square_name, files, ranks, file_to_char,
    rank_to_char, push_square_name};
use crate::movim::Movim;
use crate::strutil::string_from_chars;
use crate::board::{Board, pos_after, own_king_attacked, other_king_attacked, law_made_move_can_be_undone,
    lemma_attacks_congruent, lemma_pos_after_unique, lemma_make_move_pos, lemma_unmake_restores_state};
use crate::legalmoves::{legal_moves, king_safe_after, can_make, lemma_keep_legal_congruent,
    lemma_king_safe_congruent};
use crate::movegen::{gen_moves, lemma_gen_congruent};
use crate::globs::{san_piece_chars, push_san_piece, MAX_GAME_LINE, MAX_PLY};

verus! {

/// The letter of a piece in SAN, none for a pawn or no piece.
pub open spec fn piece_letter(p: u32) -> Seq<char> {
    if p == 6 || p == 14 { seq!['R'] }
    else if p == 5 || p == 13 { seq!['B'] }
    else if p == 3 || p == 11 { seq!['N'] }
    else if p == 2 || p == 10 { seq!['K'] }
    else if p == 7 || p == 15 { seq!['Q'] }
    else { seq![] }
}

/// The promotion suffix ("=Q").
pub open spec fn promo_text(prom: u32) -> Seq<char> {
    let l = piece_letter(prom);
    if l.len() == 0 { seq![] } else { seq!['='] + l }
}

/// A move in SAN without disambiguation, check or mate marks: castling as
/// "O-O" / "O-O-O", else the piece letter, the pawn's file when it
/// captures, "x" for a capture, the destination square and the promotion.
pub open spec fn san_ambig_chars(m: Movim) -> Seq<char> {
    let p = m.piec();
    if (p == 2 || p == 10) && m.spec_is_castle_oo() {
        seq!['O', '-', 'O']
    } else if (p == 2 || p == 10) && m.spec_is_castle_ooo() {
        seq!['O', '-', 'O', '-', 'O']
    } else {
        piece_letter(p) + (if (p == 1 || p == 9) && m.spec_is_capture() {
            seq![file_char(file_of(m.from_sq() as int))]
        } else {
            seq![]
        }) + (if m.spec_is_capture() { seq!['x'] } else { seq![] }) + square_name(m.to_sq() as int)
            + (if m.spec_is_promotion() { promo_text(m.prom()) } else { seq![] })
    }
}

/// Appends the SAN letter of piece `p`.
fn push_piece_letter(v: &mut Vec<char>, p: u32)
    ensures
        final(v)@ == old(v)@ + piece_letter(p),
{
    if p == 6 || p == 14 { v.push('R'); }
    else if p == 5 || p == 13 { v.push('B'); }
    else if p == 3 || p == 11 { v.push('N'); }
    else if p == 2 || p == 10 { v.push('K'); }
    else if p == 7 || p == 15 { v.push('Q'); }
    assert(final(v)@ =~= old(v)@ + piece_letter(p));
}

/// Appends the characters of a string literal.
fn push_str(v: &mut Vec<char>, s: &str)
    ensures
        final(v)@ == old(v)@ + s@,
{
    let t = crate::strutil::chars_of(s);
    crate::strutil::push_all(v, &t);
}

/// SAN of a move without disambiguation (see `san_ambig_chars`).
pub fn get_san_ambig(movim: Movim) -> (s: String)
    ensures
        s@ == san_ambig_chars(movim),
{
    let p = movim.get_piec();
    let mut v: Vec<char> = Vec::new();
    if (p == 2 || p == 10) && movim.is_castle_oo() {
        v.push('O'); v.push('-'); v.push('O');
        assert(v@ =~= san_ambig_chars(movim));
        return string_from_chars(&v);
    }
    if (p == 2 || p == 10) && movim.is_castle_ooo() {
        v.push('O'); v.push('-'); v.push('O'); v.push('-'); v.push('O');
        assert(v@ =~= san_ambig_chars(movim));
        return string_from_chars(&v);
    }
    push_piece_letter(&mut v, p);
    let ghost a = v@;
    if (p == 1 || p == 9) && movim.is_capture() {
        v.push(file_to_char(files(movim.get_from() as usize)));
    }
    let ghost b = v@;
    if movim.is_capture() {
        v.push('x');
    }
    let ghost c = v@;
    push_square_name(&mut v, movim.get_to_sq() as usize);
    let ghost d = v@;
    if movim.is_promotion() {
        let prom = movim.get_prom();
        let ghost before = v@;
        let mut l: Vec<char> = Vec::new();
        push_piece_letter(&mut l, prom);
        if l.len() > 0 {
            v.push('=');
            crate::strutil::push_all(&mut v, &l);
        }
        assert(v@ =~= before + promo_text(prom));
    }
    assert(v@ =~= san_ambig_chars(movim));
    string_from_chars(&v)
}


/// Making `m` on `b` gives check.
pub open spec fn gives_check(b: Board, m: Movim) -> bool {
    forall|n: Board| #[trigger] pos_after(b, m, n) ==> own_king_attacked(n)
}

/// Making `m` on `b` leaves the other side without a legal move.
pub open spec fn mates(b: Board, m: Movim) -> bool {
    forall|n: Board| #[trigger] pos_after(b, m, n) ==> legal_moves(n).len() == 0
}

/// Both depend on the position only.
pub proof fn lemma_check_congruent(a: Board, b: Board, m: Movim)
    requires
        a.same_position(b),
    ensures
        gives_check(a, m) == gives_check(b, m),
        mates(a, m) == mates(b, m),
{
    assert forall|n: Board| pos_after(a, m, n) == pos_after(b, m, n) by {}
}

/// The legal moves depend on the position only.
pub proof fn lemma_legal_congruent(a: Board, b: Board)
    requires
        a.same_position(b),
    ensures
        legal_moves(a) == legal_moves(b),
{
    lemma_gen_congruent(a, b);
    lemma_keep_legal_congruent(a, b, gen_moves(b));
}

/// Among the first `k` moves of `s` is `m`, and it is legal.
pub open spec fn legal_in(b: Board, m: Movim, s: Seq<Movim>, k: int) -> bool
    decreases k,
{
    if k <= 0 { false } else { legal_in(b, m, s, k - 1) || (s[k - 1] == m && king_safe_after(b, m)) }
}

/// Another legal move of the same kind of piece to the same square.
pub open spec fn rival(b: Board, m: Movim, g: Movim) -> bool {
    &&& king_safe_after(b, g)
    &&& g != m
    &&& g.piec() == m.piec()
    &&& g.to_sq() == m.to_sq()
}

/// Among the first `k` moves of `s` is a rival of `m`, from the same file
/// of `m` if `by_file`, from the same rank if `by_rank`.
pub open spec fn rival_in(b: Board, m: Movim, s: Seq<Movim>, k: int, by_file: bool, by_rank: bool) -> bool
    decreases k,
{
    if k <= 0 {
        false
    } else {
        ||| rival_in(b, m, s, k - 1, by_file, by_rank)
        ||| {
            &&& rival(b, m, s[k - 1])
            &&& by_file ==> file_of(s[k - 1].from_sq() as int) == file_of(m.from_sq() as int)
            &&& by_rank ==> rank_of(s[k - 1].from_sq() as int) == rank_of(m.from_sq() as int)
        }
    }
}

/// The check or mate mark.
pub open spec fn check_mark(check: bool, mate: bool) -> Seq<char> {
    if check { if mate { seq!['#'] } else { seq!['+'] } } else { seq![] }
}

/// Castling in SAN: "O-O" king side, "O-O-O" queen side.
pub open spec fn castle_san(short: bool) -> Seq<char> {
    if short { seq!['O', '-', 'O'] } else { seq!['O', '-', 'O', '-', 'O'] }
}

/// The SAN of `m` on `b`, disambiguated against the other legal moves:
/// "None" for a move that is not legal; castling as "O-O" or "O-O-O" with
/// its mark; else the piece letter with, when another piece of the kind
/// can go to the same square, the from file, or the from rank when the file
/// is shared, or both when both are; a capturing pawn's file; "x"; the
/// destination; " e.p."; the promotion; "+" or "#".
pub open spec fn san_disambig_chars(b: Board, m: Movim) -> Seq<char> {
    let gen = gen_moves(b);
    let n = gen.len() as int;
    if !legal_in(b, m, gen, n) {
        seq!['N', 'o', 'n', 'e']
    } else {
        let chk = gives_check(b, m);
        let mark = check_mark(chk, chk && mates(b, m));
        let p = m.piec();
        if (p == 2 || p == 10) && (m.spec_is_castle_oo() || m.spec_is_castle_ooo()) {
            castle_san(m.spec_is_castle_oo()) + mark
        } else {
            san_head(m, rival_in(b, m, gen, n, false, false), rival_in(b, m, gen, n, true, false),
                rival_in(b, m, gen, n, false, true)) + (if m.spec_is_capture() { seq!['x'] } else { seq![] })
                + san_tail(m) + mark
        }
    }
}

/// The first ply slot from `j` on whose move count is zero.
pub open spec fn first_free_ply(s: Seq<usize>, j: int) -> int
    decreases s.len() - j,
{
    if j < 0 || j >= s.len() || s[j] == 0 { j } else { first_free_ply(s, j + 1) }
}

proof fn lemma_first_free_ge(s: Seq<usize>, j: int)
    requires
        j >= 0,
    ensures
        first_free_ply(s, j) >= j,
    decreases s.len() - j,
{
    if j < s.len() && s[j] != 0 {
        lemma_first_free_ge(s, j + 1);
    }
}

/// Room to make a move and a reply.
pub open spec fn can_make_two(b: Board) -> bool {
    &&& can_make(b)
    &&& b.end_of_search + 1 < MAX_GAME_LINE
    &&& b.fifty_move < i32::MAX - 1
    &&& b.full_moves < i32::MAX - 1
}

impl Board {
    /// Makes `mv`, looks whether it is legal and, when `deep` and it is,
    /// whether it gives check and then mate (generating the replies from
    /// buffer position `end1` on, their end kept in ply slot `slot`), and
    /// takes the move back.
    fn probe_move(&mut self, mv: Movim, deep: bool, end1: usize, slot: usize) -> (r: (bool, bool, bool))
        requires
            can_make_two(*old(self)),
            old(self).move_ok(mv),
            end1 <= old(self).move_buffer.len(),
            slot < old(self).move_buf_len.len(),
        ensures
            r.0 == king_safe_after(*old(self), mv),
            deep && r.0 ==> r.1 == gives_check(*old(self), mv),
            deep && r.0 && r.1 ==> r.2 == mates(*old(self), mv),
            final(self).wf(),
            final(self).same_state(*old(self)),
            final(self).move_buffer.len() >= end1,
            final(self).move_buffer@.take(end1 as int) == old(self).move_buffer@.take(end1 as int),
            final(self).move_buf_len.len() == old(self).move_buf_len.len(),
            forall|j: int| 0 <= j < old(self).move_buf_len.len() && j != slot ==> #[trigger] final(self).move_buf_len[j]
                == old(self).move_buf_len[j],
    {
        let ghost b0 = *self;
        self.make_move(mv);
        let ghost b1 = *self;
        let attacked = self.is_other_king_attacked();
        proof {
            law_made_move_can_be_undone(b0, mv, b1);
            lemma_make_move_pos(b0, mv, b1);
            assert forall|n: Board| pos_after(b0, mv, n) implies other_king_attacked(n) == attacked
                && own_king_attacked(n) == own_king_attacked(b1) && legal_moves(n) == legal_moves(b1) by {
                lemma_pos_after_unique(b0, b0, mv, n, b1);
                lemma_attacks_congruent(n, b1);
                lemma_legal_congruent(n, b1);
            }
        }
        let mut chk = false;
        let mut mt = false;
        if !attacked && deep {
            chk = self.is_own_king_attacked();
            if chk {
                let (k, end2) = self.count_legal(end1);
                let ghost bc = *self;
                self.move_buf_len.set(slot, end2);
                proof { Board::lemma_wf_frame(bc, *self); }
                mt = k == 0;
            }
        }
        let ghost b2 = *self;
        self.unmake_move(mv);
        proof {
            lemma_unmake_restores_state(b0, mv, b1, b2, *self);
        }
        (!attacked, chk, mt)
    }
}

/// The SAN of `movim` on this board (see `san_disambig_chars`).  All moves
/// are generated into the next free ply of the move buffer to find the
/// other pieces that can go to the same square, and each is made and taken
/// back; the position is given back as it was.
pub fn get_san_disambig(board: &mut Board, movim: Movim) -> (r: String)
    requires
        can_make_two(*old(board)),
        first_free_ply(old(board).move_buf_len@, 1) + 1 < MAX_PLY,
        old(board).move_buf_len[first_free_ply(old(board).move_buf_len@, 1) - 1] <= old(board).move_buffer.len(),
    ensures
        r@ == san_disambig_chars(*old(board), movim),
        final(board).wf(),
        final(board).same_state(*old(board)),
        ({
            let free = first_free_ply(old(board).move_buf_len@, 1);
            let base = old(board).move_buf_len[free - 1] as int;
            &&& final(board).move_buf_len@ == old(board).move_buf_len@.update(free, 0).update(free + 1, 0)
            &&& final(board).move_buffer@.take(base + gen_moves(*old(board)).len()) == old(board).move_buffer@.take(base)
                + gen_moves(*old(board))
        }),
{
    let ghost b0 = *board;
    let ghost mbl0 = board.move_buf_len@;
    let ghost free = first_free_ply(mbl0, 1);
    proof { movim.lemma_masks(); }
    let piece = movim.get_piec();
    let from = movim.get_from();
    let to = movim.get_to_sq();
    let mut ibuf: usize = 0;
    proof { lemma_first_free_ge(mbl0, 1); }
    while board.move_buf_len[ibuf + 1] != 0
        invariant
            board.move_buf_len@ == mbl0,
            mbl0.len() == MAX_PLY,
            free == first_free_ply(mbl0, 1),
            free + 1 < MAX_PLY,
            ibuf + 1 <= free,
            first_free_ply(mbl0, ibuf + 1) == free,
        decreases free - ibuf,
    {
        proof { lemma_first_free_ge(mbl0, ibuf + 2); }
        ibuf = ibuf + 1;
    }
    assert(ibuf + 1 == free);
    let base = board.move_buf_len[ibuf];
    let end1 = board.movegen(base);
    let ghost gen = gen_moves(b0);
    let ghost buf1 = board.move_buffer@.take(end1 as int);
    let ghost bg = *board;
    board.move_buf_len.set(ibuf + 1, end1);
    proof { Board::lemma_wf_frame(bg, *board); }
    let ghost mbl1 = board.move_buf_len@;
    let mut legal = false;
    let mut check = false;
    let mut mate = false;
    let mut ambig = false;
    let mut ambigfile: usize = 0;
    let mut ambigrank: usize = 0;
    let mut i: usize = base;
    while i < end1
        invariant
            can_make_two(*board),
            board.same_state(b0),
            board.move_buffer.len() >= end1,
            board.move_buffer@.take(end1 as int) == buf1,
            buf1 == b0.move_buffer@.take(base as int) + gen,
            gen == gen_moves(b0),
            end1 == buf1.len(),
            base <= i <= end1,
            base <= b0.move_buffer.len(),
            forall|j: int| base <= j < end1 ==> b0.move_ok(#[trigger] buf1[j]),
            ibuf + 2 < MAX_PLY,
            board.move_buf_len.len() == MAX_PLY,
            piece == movim.piec(),
            from == movim.from_sq(),
            to == movim.to_sq(),
            from < 64,
            to < 64,
            mbl1 == mbl0.update(free, end1),
            free == ibuf + 1,
            mbl0.len() == MAX_PLY,
            forall|j: int| 0 <= j < MAX_PLY && j != ibuf + 2 ==> #[trigger] board.move_buf_len[j] == mbl1[j],
            legal == legal_in(b0, movim, gen, i - base),
            legal ==> check == gives_check(b0, movim),
            !legal ==> !check,
            legal && check ==> mate == mates(b0, movim),
            !(legal && check) ==> !mate,
            ambig == rival_in(b0, movim, gen, i - base, false, false),
            (ambigfile > 0) == rival_in(b0, movim, gen, i - base, true, false),
            (ambigrank > 0) == rival_in(b0, movim, gen, i - base, false, true),
            ambigfile <= i - base,
            ambigrank <= i - base,
        decreases end1 - i,
    {
        let mv = board.move_buffer[i];
        assert(board.move_buffer@.take(end1 as int)[i as int] == board.move_buffer@[i as int]);
        assert(buf1[i as int] == gen[i - base]);
        let ghost bi = *board;
        let same = mv.move_int == movim.move_int;
        let probe = board.probe_move(mv, same, end1, ibuf + 2);
        let safe = probe.0;
        proof {
            lemma_king_safe_congruent(bi, b0, mv);
            lemma_check_congruent(bi, b0, mv);
            assert(mv == gen[i - base]);
            assert(same == (mv == movim));
        }
        if safe {
            if same {
                legal = true;
                if probe.1 {
                    check = true;
                    if probe.2 {
                        mate = true;
                    }
                }
            }
            proof { mv.lemma_masks(); }
            if !same && mv.get_piec() == piece && mv.get_to_sq() == to {
                ambig = true;
                if files(from as usize) == files(mv.get_from() as usize) {
                    ambigfile = ambigfile + 1;
                }
                if ranks(from as usize) == ranks(mv.get_from() as usize) {
                    ambigrank = ambigrank + 1;
                }
            }
        }
        i = i + 1;
    }
    let ghost bl = *board;
    board.move_buf_len.set(ibuf + 1, 0);
    board.move_buf_len.set(ibuf + 2, 0);
    proof {
        Board::lemma_wf_frame(bl, *board);
        assert(board.move_buf_len@ =~= mbl0.update(free, 0).update(free + 1, 0));
        assert(i - base == gen.len());
    }
    san_text(movim, legal, check, mate, ambig, ambigfile > 0, ambigrank > 0)
}

/// The part of the SAN before the capture mark.
pub open spec fn san_head(movim: Movim, ambig: bool, file_shared: bool, rank_shared: bool) -> Seq<char> {
    let p = movim.piec();
    let f = file_char(file_of(movim.from_sq() as int));
    let rk = rank_char(rank_of(movim.from_sq() as int));
    if !movim.spec_is_pawn_move() {
        san_piece_chars(p as int) + if ambig {
            if file_shared { if rank_shared { seq![f, rk] } else { seq![rk] } } else { seq![f] }
        } else {
            seq![]
        }
    } else if movim.spec_is_capture() {
        seq![f]
    } else {
        seq![]
    }
}

/// The part of the SAN after the capture mark, before the check mark.
pub open spec fn san_tail(movim: Movim) -> Seq<char> {
    square_name(movim.to_sq() as int)
        + (if movim.spec_is_enpassant() { seq![' ', 'e', '.', 'p', '.'] } else { seq![] })
        + (if movim.spec_is_promotion() { seq!['='] + san_piece_chars(movim.prom() as int) } else { seq![] })
}

fn push_san_head(v: &mut Vec<char>, movim: Movim, ambig: bool, file_shared: bool, rank_shared: bool)
    ensures
        final(v)@ == old(v)@ + san_head(movim, ambig, file_shared, rank_shared),
{
    proof { movim.lemma_masks(); }
    let from = movim.get_from() as usize;
    let f = file_to_char(files(from));
    let rk = rank_to_char(ranks(from));
    let ghost v0 = v@;
    if !movim.is_pawn_move() {
        push_san_piece(v, movim.get_piec());
        if ambig {
            if file_shared {
                if rank_shared {
                    v.push(f);
                    v.push(rk);
                } else {
                    v.push(rk);
                }
            } else {
                v.push(f);
            }
        }
    } else if movim.is_capture() {
        v.push(f);
    }
    assert(v@ =~= v0 + san_head(movim, ambig, file_shared, rank_shared));
}

fn push_san_tail(v: &mut Vec<char>, movim: Movim)
    ensures
        final(v)@ == old(v)@ + san_tail(movim),
{
    proof { movim.lemma_masks(); }
    let ghost v0 = v@;
    push_square_name(v, movim.get_to_sq() as usize);
    let ghost v1 = v@;
    if movim.is_enpassant() {
        v.push(' '); v.push('e'); v.push('.'); v.push('p'); v.push('.');
    }
    let ghost v2 = v@;
    if movim.is_promotion() {
        v.push('=');
        push_san_piece(v, movim.get_prom());
    }
    assert(v2 =~= v1 + (if movim.spec_is_enpassant() { seq![' ', 'e', '.', 'p', '.'] } else { seq![] }));
    assert(v@ =~= v2 + (if movim.spec_is_promotion() { seq!['='] + san_piece_chars(movim.prom() as int) } else { seq![] }));
    assert(v@ =~= v0 + san_tail(movim));
}

/// Builds the SAN from what the search found.
fn san_text(movim: Movim, legal: bool, check: bool, mate: bool, ambig: bool, file_shared: bool,
    rank_shared: bool) -> (r: String)
    ensures
        r@ == (if !legal {
            seq!['N', 'o', 'n', 'e']
        } else {
            let mark = check_mark(check, check && mate);
            let p = movim.piec();
            if (p == 2 || p == 10) && (movim.spec_is_castle_oo() || movim.spec_is_castle_ooo()) {
                castle_san(movim.spec_is_castle_oo()) + mark
            } else {
                san_head(movim, ambig, file_shared, rank_shared) + (if movim.spec_is_capture() { seq!['x'] } else { seq![] })
                    + san_tail(movim) + mark
            }
        }),
{
    proof { movim.lemma_masks(); }
    let mut v: Vec<char> = Vec::new();
    if !legal {
        v.push('N'); v.push('o'); v.push('n'); v.push('e');
        assert(v@ =~= seq!['N', 'o', 'n', 'e']);
        return string_from_chars(&v);
    }
    let mut mark: Vec<char> = Vec::new();
    if check {
        if mate { mark.push('#'); } else { mark.push('+'); }
    }
    assert(mark@ =~= check_mark(check, check && mate));
    let p = movim.get_piec();
    if (p == 2 || p == 10) && (movim.is_castle_oo() || movim.is_castle_ooo()) {
        v.push('O'); v.push('-'); v.push('O');
        if !movim.is_castle_oo() {
            v.push('-'); v.push('O');
        }
        assert(v@ =~= castle_san(movim.spec_is_castle_oo()));
        crate::strutil::push_all(&mut v, &mark);
        assert(v@ =~= castle_san(movim.spec_is_castle_oo()) + mark@);
        return string_from_chars(&v);
    }
    push_san_head(&mut v, movim, ambig, file_shared, rank_shared);
    let ghost head = v@;
    if movim.is_capture() {
        v.push('x');
    }
    assert(v@ =~= head + (if movim.spec_is_capture() { seq!['x'] } else { seq![] }));
    push_san_tail(&mut v, movim);
    crate::strutil::push_all(&mut v, &mark);
    string_from_chars(&v)
}


proof fn lemma_legal_in_congruent(a: Board, b: Board, m: Movim, s: Seq<Movim>, k: int)
    requires
        a.same_position(b),
    ensures
        legal_in(a, m, s, k) == legal_in(b, m, s, k),
    decreases k,
{
    lemma_king_safe_congruent(a, b, m);
    if k > 0 {
        lemma_legal_in_congruent(a, b, m, s, k - 1);
    }
}

proof fn lemma_rival_in_congruent(a: Board, b: Board, m: Movim, s: Seq<Movim>, k: int, ff: bool, rr: bool)
    requires
        a.same_position(b),
    ensures
        rival_in(a, m, s, k, ff, rr) == rival_in(b, m, s, k, ff, rr),
    decreases k,
{
    if k > 0 {
        lemma_king_safe_congruent(a, b, s[k - 1]);
        lemma_rival_in_congruent(a, b, m, s, k - 1, ff, rr);
    }
}

/// The SAN of a move depends on the position only.
pub proof fn lemma_san_congruent(a: Board, b: Board, m: Movim)
    requires
        a.same_position(b),
    ensures
        san_disambig_chars(a, m) == san_disambig_chars(b, m),
{
    lemma_gen_congruent(a, b);
    let gen = gen_moves(a);
    let n = gen.len() as int;
    lemma_legal_in_congruent(a, b, m, gen, n);
    lemma_rival_in_congruent(a, b, m, gen, n, false, false);
    lemma_rival_in_congruent(a, b, m, gen, n, true, false);
    lemma_rival_in_congruent(a, b, m, gen, n, false, true);
    lemma_check_congruent(a, b, m);
}
}
