use vstd::prelude::*;
use crate::globs::{real_piece_char, valid_code};
use crate::fen::{rank_fen, placement_fen, place_ok, place_from, placement_squares, empty_squares, fen_code, fen_text,
    fen_ok, words, is_ws, castle_fen, ep_fen, ep_value, ep_ok, castle_rights, parse_i32, unsigned_part, all_digits,
    digits_value, lemma_words_word};
use crate::strutil::{decimal, digit_char, int_chars};
use crate::board::Board;
use crate::levels::lemma_decimal_value;

verus! {

// Reading back the placement field that the FEN writer writes.

/// The squares read so far: those above rank `r`, and those of rank `r`
/// before file `g`, hold their pieces; the others are still empty.
pub open spec fn partial(sq: Seq<i32>, r: int, g: int) -> Seq<i32> {
    Seq::new(64, |k: int| if k / 8 + 1 > r || (k / 8 + 1 == r && k % 8 + 1 < g) { sq[k] } else { 0i32 })
}

/// The ranks `r` down to 1 of the placement field, separated by '/'.
pub open spec fn ranks_from(sq: Seq<i32>, r: int) -> Seq<char>
    decreases r,
{
    if r <= 1 { rank_fen(sq, 1, 1, 0) } else { rank_fen(sq, r, 1, 0) + seq!['/'] + ranks_from(sq, r - 1) }
}

/// Every square holds a piece code or nothing.
pub open spec fn codes_ok(sq: Seq<i32>) -> bool {
    sq.len() == 64 && forall|k: int| 0 <= k < 64 ==> valid_code(#[trigger] sq[k] as int)
}

/// Reading a text that ends with `b` gives, from inside `b`, what reading
/// `b` alone gives.
proof fn lemma_suffix(a: Seq<char>, b: Seq<char>, j: int, c: int, f: int, r: int, acc: Seq<i32>)
    requires
        0 <= j <= b.len(),
    ensures
        place_from(a + b, a.len() + j, c, f, r, acc) == place_from(b, j, c, f, r, acc),
        place_ok(a + b, a.len() + j, c, f, r) == place_ok(b, j, c, f, r),
    decreases b.len() - j,
{
    let t = a + b;
    if j < b.len() && c < 64 {
        assert(t[a.len() + j] == b[j]);
        let ch = b[j];
        if '1' <= ch <= '8' {
            let d = ch as int - '0' as int;
            lemma_suffix(a, b, j + 1, c + d, f + d, r, acc);
        } else if ch == '/' {
            lemma_suffix(a, b, j + 1, c, 1, r - 1, acc);
        } else if fen_code(ch) != 0 {
            lemma_suffix(a, b, j + 1, c + 1, f + 1, r, acc.update((r - 1) * 8 + f - 1, fen_code(ch)));
        } else if ch == '?' {
            lemma_suffix(a, b, j + 1, c + 1, f + 1, r, acc);
        } else {
            lemma_suffix(a, b, j + 1, c, f, r, acc);
        }
    }
}

/// The letter of a piece is read back as the piece.
proof fn lemma_code_letter(p: int)
    requires
        valid_code(p),
        p != 0,
    ensures
        real_piece_char(p) != '*',
        fen_code(real_piece_char(p)) == p,
        !('1' <= real_piece_char(p) <= '8'),
        real_piece_char(p) != '/',
{
}

/// A rank's text from file `f` on, with `e` empty squares pending, read
/// from place `i` of `t`: it takes the squares of the rank from file
/// `f - e` on, and the reading continues after it at file 9.
proof fn lemma_rank(sq: Seq<i32>, r: int, f: int, e: int, t: Seq<char>, i: int)
    requires
        codes_ok(sq),
        1 <= r <= 8,
        1 <= f <= 9,
        0 <= e <= f - 1,
        forall|g: int| f - e <= g < f ==> #[trigger] sq[(r - 1) * 8 + g - 1] == 0,
        0 <= i,
        i + rank_fen(sq, r, f, e as nat).len() <= t.len(),
        t.subrange(i, i + rank_fen(sq, r, f, e as nat).len()) == rank_fen(sq, r, f, e as nat),
    ensures
        place_from(t, i, 8 * (8 - r) + f - 1 - e, f - e, r, partial(sq, r, f - e)) == place_from(t, i + rank_fen(sq,
            r, f, e as nat).len(), 8 * (8 - r) + 8, 9, r, partial(sq, r, 9)),
        place_ok(t, i, 8 * (8 - r) + f - 1 - e, f - e, r) == place_ok(t, i + rank_fen(sq, r, f, e as nat).len(), 8 * (8
            - r) + 8, 9, r),
    decreases 9 - f,
{
    let txt = rank_fen(sq, r, f, e as nat);
    let c0 = 8 * (8 - r) + f - 1 - e;
    if f > 8 {
        if e > 0 {
            assert(decimal(e as nat) == seq![digit_char(e as nat)]);
            assert(txt == seq![digit_char(e as nat)]);
            assert(t.subrange(i, i + txt.len())[0] == txt[0]);
            assert(t[i] == txt[0]);
            assert(digit_char(e as nat) as int - '0' as int == e);
            assert(partial(sq, r, f - e) =~= partial(sq, r, 9)) by {
                assert forall|k: int| 0 <= k < 64 implies #[trigger] partial(sq, r, f - e)[k] == partial(sq, r, 9)[k] by {
                    if k / 8 + 1 == r && f - e <= k % 8 + 1 {
                        let g = k % 8 + 1;
                        assert((r - 1) * 8 + g - 1 == k);
                        assert(sq[(r - 1) * 8 + g - 1] == 0);
                    }
                }
            }
        } else {
            assert(txt.len() == 0);
        }
    } else {
        let k = (r - 1) * 8 + f - 1;
        let code = sq[k];
        assert(valid_code(code as int));
        let ch = real_piece_char(code as int);
        if ch == '*' {
            assert(code == 0);
            assert(txt == rank_fen(sq, r, f + 1, (e + 1) as nat));
            assert forall|g: int| f + 1 - (e + 1) <= g < f + 1 implies #[trigger] sq[(r - 1) * 8 + g - 1] == 0 by {
                if g < f {
                    assert(sq[(r - 1) * 8 + g - 1] == 0);
                }
            }
            lemma_rank(sq, r, f + 1, e + 1, t, i);
        } else {
            lemma_code_letter(code as int);
            let rest = rank_fen(sq, r, f + 1, 0);
            let head = if e > 0 { decimal(e as nat) } else { seq![] };
            assert(txt == head + seq![ch] + rest);
            let i1 = i + head.len();
            // the pending empty squares
            if e > 0 {
                assert(decimal(e as nat) == seq![digit_char(e as nat)]);
                assert(t.subrange(i, i + txt.len())[0] == txt[0]);
                assert(txt[0] == digit_char(e as nat));
                assert(t[i] == digit_char(e as nat));
                assert(digit_char(e as nat) as int - '0' as int == e);
                assert(partial(sq, r, f - e) =~= partial(sq, r, f)) by {
                    assert forall|q: int| 0 <= q < 64 implies #[trigger] partial(sq, r, f - e)[q] == partial(sq, r, f)[q] by {
                        if q / 8 + 1 == r && f - e <= q % 8 + 1 && q % 8 + 1 < f {
                            let g = q % 8 + 1;
                            assert((r - 1) * 8 + g - 1 == q);
                            assert(sq[(r - 1) * 8 + g - 1] == 0);
                        }
                    }
                }
                assert(place_from(t, i, c0, f - e, r, partial(sq, r, f - e)) == place_from(t, i1, c0 + e, f, r,
                    partial(sq, r, f)));
                assert(place_ok(t, i, c0, f - e, r) == place_ok(t, i1, c0 + e, f, r));
            }
            // the piece
            assert(t.subrange(i, i + txt.len())[head.len() as int] == txt[head.len() as int]);
            assert(txt[head.len() as int] == ch);
            assert(t[i1] == ch);
            assert(partial(sq, r, f).update(k, fen_code(ch)) =~= partial(sq, r, f + 1)) by {
                assert(k / 8 + 1 == r && k % 8 + 1 == f) by {
                    assert(k == (r - 1) * 8 + (f - 1));
                }
            }
            assert(place_from(t, i1, c0 + e, f, r, partial(sq, r, f)) == place_from(t, i1 + 1, c0 + e + 1, f + 1, r,
                partial(sq, r, f + 1)));
            assert(place_ok(t, i1, c0 + e, f, r) == place_ok(t, i1 + 1, c0 + e + 1, f + 1, r));
            assert(t.subrange(i1 + 1, i1 + 1 + rest.len()) =~= rest) by {
                assert forall|q: int| 0 <= q < rest.len() implies #[trigger] t.subrange(i1 + 1, i1 + 1 + rest.len())[q]
                    == rest[q] by {
                    assert(t.subrange(i, i + txt.len())[head.len() + 1 + q] == txt[head.len() + 1 + q]);
                }
            }
            lemma_rank(sq, r, f + 1, 0, t, i1 + 1);
        }
    }
}

/// Reading the ranks `r` down to 1 takes all their squares.
proof fn lemma_ranks(sq: Seq<i32>, r: int)
    requires
        codes_ok(sq),
        1 <= r <= 8,
    ensures
        place_from(ranks_from(sq, r), 0, 8 * (8 - r), 1, r, partial(sq, r, 1)) == partial(sq, 1, 9),
        place_ok(ranks_from(sq, r), 0, 8 * (8 - r), 1, r),
    decreases r,
{
    let t = ranks_from(sq, r);
    let a = rank_fen(sq, r, 1, 0);
    assert(forall|g: int| 1 <= g < 1 ==> #[trigger] sq[(r - 1) * 8 + g - 1] == 0);
    if r <= 1 {
        assert(t.subrange(0, a.len() as int) =~= a);
        lemma_rank(sq, r, 1, 0, t, 0);
    } else {
        let b = ranks_from(sq, r - 1);
        let a2 = a + seq!['/'];
        assert(t == a2 + b);
        assert(t.subrange(0, a.len() as int) =~= a);
        lemma_rank(sq, r, 1, 0, t, 0);
        assert(t[a.len() as int] == '/');
        assert(partial(sq, r, 9) =~= partial(sq, r - 1, 1));
        assert(place_from(t, a.len() as int, 8 * (8 - r) + 8, 9, r, partial(sq, r, 9)) == place_from(t, a2.len() as int,
            8 * (8 - r) + 8, 1, r - 1, partial(sq, r - 1, 1)));
        assert(place_ok(t, a.len() as int, 8 * (8 - r) + 8, 9, r) == place_ok(t, a2.len() as int, 8 * (8 - r) + 8, 1,
            r - 1));
        lemma_suffix(a2, b, 0, 8 * (8 - r) + 8, 1, r - 1, partial(sq, r - 1, 1));
        lemma_ranks(sq, r - 1);
    }
}

/// The placement field written for a board of piece codes reads back as
/// that board: what `placement_fen` writes, `placement_squares` reads, and
/// `setup_fen` accepts it; the field holds no white space, so it stays
/// one word of the FEN.
pub proof fn law_placement_round_trip(sq: Seq<i32>)
    requires
        codes_ok(sq),
    ensures
        place_ok(placement_fen(sq), 0, 0, 1, 8),
        placement_squares(placement_fen(sq)) == sq,
        no_ws(placement_fen(sq)),
{
    reveal_with_fuel(ranks_from, 9);
    lemma_ranks_no_ws(sq, 8);
    assert(placement_fen(sq) =~= ranks_from(sq, 8));
    lemma_ranks(sq, 8);
    assert(partial(sq, 8, 1) =~= empty_squares());
    assert(partial(sq, 1, 9) =~= sq);
}

/// No white space in the text.
pub open spec fn no_ws(s: Seq<char>) -> bool {
    forall|i: int| 0 <= i < s.len() ==> !is_ws(#[trigger] s[i])
}

proof fn lemma_decimal_no_ws(n: nat)
    ensures
        no_ws(decimal(n)),
        decimal(n).len() >= 1,
{
    lemma_decimal_value(n);
}

proof fn lemma_rank_no_ws(sq: Seq<i32>, r: int, f: int, e: nat)
    ensures
        no_ws(rank_fen(sq, r, f, e)),
    decreases 9 - f,
{
    if f > 8 || f < 1 {
        if e > 0 { lemma_decimal_no_ws(e); }
    } else {
        let c = real_piece_char(sq[(r - 1) * 8 + f - 1] as int);
        if c == '*' {
            lemma_rank_no_ws(sq, r, f + 1, e + 1);
        } else {
            lemma_rank_no_ws(sq, r, f + 1, 0);
            if e > 0 { lemma_decimal_no_ws(e); }
            let head = if e > 0 { decimal(e) } else { seq![] };
            let rest = rank_fen(sq, r, f + 1, 0);
            assert forall|i: int| 0 <= i < (head + seq![c] + rest).len() implies !is_ws(#[trigger] (head + seq![c]
                + rest)[i]) by {
                if i < head.len() {
                    assert((head + seq![c] + rest)[i] == head[i]);
                } else if i == head.len() {
                } else {
                    assert((head + seq![c] + rest)[i] == rest[i - head.len() - 1]);
                }
            }
        }
    }
}

proof fn lemma_concat_no_ws(a: Seq<char>, b: Seq<char>)
    requires
        no_ws(a),
        no_ws(b),
    ensures
        no_ws(a + b),
{
    assert forall|i: int| 0 <= i < (a + b).len() implies !is_ws(#[trigger] (a + b)[i]) by {
        if i < a.len() { assert((a + b)[i] == a[i]); } else { assert((a + b)[i] == b[i - a.len()]); }
    }
}

proof fn lemma_ranks_no_ws(sq: Seq<i32>, r: int)
    ensures
        no_ws(ranks_from(sq, r)),
        ranks_from(sq, r).len() >= 1 || r <= 1,
    decreases r,
{
    lemma_rank_no_ws(sq, r, 1, 0);
    lemma_rank_no_ws(sq, 1, 1, 0);
    if r > 1 {
        assert(no_ws(seq!['/']));
        lemma_ranks_no_ws(sq, r - 1);
        lemma_concat_no_ws(rank_fen(sq, r, 1, 0), seq!['/']);
        lemma_concat_no_ws(rank_fen(sq, r, 1, 0) + seq!['/'], ranks_from(sq, r - 1));
    }
}

/// A number written in decimal is read back as that number.
proof fn lemma_int_round_trip(n: i32)
    ensures
        parse_i32(int_chars(n as int)) == Some(n),
        no_ws(int_chars(n as int)),
        int_chars(n as int).len() >= 1,
{
    let s = int_chars(n as int);
    if n < 0 {
        let m = (-n) as nat;
        lemma_decimal_value(m);
        assert(s == seq!['-'] + decimal(m));
        assert(unsigned_part(s) =~= decimal(m));
        assert(all_digits(decimal(m)));
        assert forall|i: int| 0 <= i < s.len() implies !is_ws(#[trigger] s[i]) by {
            if i > 0 { assert(s[i] == decimal(m)[i - 1]); }
        }
    } else {
        let m = n as nat;
        lemma_decimal_value(m);
        assert(s == decimal(m));
        assert(s[0] != '-' && s[0] != '+');
        assert(unsigned_part(s) =~= decimal(m));
    }
}

/// The words of six fields written with single spaces between them.
proof fn lemma_six_words(p: Seq<char>, side: Seq<char>, c: Seq<char>, e: Seq<char>, f1: Seq<char>, f2: Seq<char>)
    requires
        no_ws(p) && p.len() >= 1,
        no_ws(side) && side.len() >= 1,
        no_ws(c) && c.len() >= 1,
        no_ws(e) && e.len() >= 1,
        no_ws(f1) && f1.len() >= 1,
        no_ws(f2) && f2.len() >= 1,
    ensures
        words(p + seq![' '] + side + seq![' '] + c + seq![' '] + e + seq![' '] + f1 + seq![' '] + f2) == seq![p, side,
            c, e, f1, f2],
{
    let sp = seq![' '];
    let t6 = f2;
    let t5 = f1 + (sp + t6);
    let t4 = e + (sp + t5);
    let t3 = c + (sp + t4);
    let t2 = side + (sp + t3);
    let t1 = p + (sp + t2);
    assert(p + sp + side + sp + c + sp + e + sp + f1 + sp + f2 =~= t1);
    assert(words(f2) == seq![f2]) by {
        lemma_words_word(f2, seq![]);
        assert(f2 + seq![] =~= f2);
        assert(words(seq![]) =~= Seq::<Seq<char>>::empty());
    }
    lemma_words_word(f1, sp + t6);
    assert(words(sp + t6) == words(t6)) by { assert((sp + t6).skip(1) =~= t6); }
    lemma_words_word(e, sp + t5);
    assert(words(sp + t5) == words(t5)) by { assert((sp + t5).skip(1) =~= t5); }
    lemma_words_word(c, sp + t4);
    assert(words(sp + t4) == words(t4)) by { assert((sp + t4).skip(1) =~= t4); }
    lemma_words_word(side, sp + t3);
    assert(words(sp + t3) == words(t3)) by { assert((sp + t3).skip(1) =~= t3); }
    lemma_words_word(p, sp + t2);
    assert(words(sp + t2) == words(t2)) by { assert((sp + t2).skip(1) =~= t2); }
    assert(words(t1) =~= seq![p, side, c, e, f1, f2]);
}

/// The castling field reads back as the rights written.
proof fn lemma_castle_round_trip(cw: u8, cb: u8)
    requires
        cw <= 3,
        cb <= 3,
    ensures
        castle_rights(castle_fen(cw, cb), 'K', 'Q') == cw as int,
        castle_rights(castle_fen(cw, cb), 'k', 'q') == cb as int,
        no_ws(castle_fen(cw, cb)),
        castle_fen(cw, cb).len() >= 1,
{
    let c = castle_fen(cw, cb);
    assert forall|i: int| 0 <= i < c.len() implies !is_ws(#[trigger] c[i]) by {}
    let wp = if cw == 1 { seq!['K'] } else if cw == 2 { seq!['Q'] } else if cw == 3 { seq!['K', 'Q'] } else { seq![] };
    let bp = if cb == 1 { seq!['k'] } else if cb == 2 { seq!['q'] } else if cb == 3 { seq!['k', 'q'] } else { seq![] };
    let dp = if cw == 0 && cb == 0 { seq!['-'] } else { seq![] };
    assert(c == wp + bp + dp);
    if cw == 1 || cw == 3 { assert(c[0] == 'K'); }
    if cw == 2 { assert(c[0] == 'Q'); }
    if cw == 3 { assert(c[1] == 'Q'); }
    if cb == 1 || cb == 3 { assert(c[wp.len() as int] == 'k'); }
    if cb == 2 { assert(c[wp.len() as int] == 'q'); }
    if cb == 3 { assert(c[wp.len() as int + 1] == 'q'); }
    if c.contains('K') { let i = choose|i: int| 0 <= i < c.len() && c[i] == 'K'; }
    if c.contains('Q') { let i = choose|i: int| 0 <= i < c.len() && c[i] == 'Q'; }
    if c.contains('k') { let i = choose|i: int| 0 <= i < c.len() && c[i] == 'k'; }
    if c.contains('q') { let i = choose|i: int| 0 <= i < c.len() && c[i] == 'q'; }
}

/// The en-passant field reads back as the square written.
proof fn lemma_ep_round_trip(ep: i32)
    requires
        0 <= ep < 64,
    ensures
        ep_ok(ep_fen(ep)),
        ep_value(ep_fen(ep)) == ep as int,
        no_ws(ep_fen(ep)),
        ep_fen(ep).len() >= 1,
{
    let e = ep_fen(ep);
    assert forall|i: int| 0 <= i < e.len() implies !is_ws(#[trigger] e[i]) by {}
}

/// The FEN a board writes, read back, gives the board's position: the
/// placement, the side to move, the castling rights, the en-passant square
/// and both move counters are what `setup_fen` sets from it.  (The side to
/// move is written as 'w' or 'b', so it comes back when it is 0 or 1; the
/// castling field holds rights 0 to 3 of each side.)
#[verifier::rlimit(40)]
pub proof fn law_fen_round_trip(b: Board)
    requires
        b.wf(),
        b.next_move <= 1,
        b.castle_white <= 3,
        b.castle_black <= 3,
    ensures
        fen_ok(fen_text(b)),
        ({
            let w = words(fen_text(b));
            &&& placement_squares(w[0]) == b.square@
            &&& (if w[1] == seq!['b'] { 1u8 } else { 0u8 }) == b.next_move
            &&& castle_rights(w[2], 'K', 'Q') == b.castle_white as int
            &&& castle_rights(w[2], 'k', 'q') == b.castle_black as int
            &&& ep_value(w[3]) == b.ep_square as int
            &&& parse_i32(w[4]) == Some(b.fifty_move)
            &&& parse_i32(w[5]) == Some(b.full_moves)
        }),
{
    let sq = b.square@;
    assert(codes_ok(sq));
    law_placement_round_trip(sq);
    let p = placement_fen(sq);
    assert(p =~= ranks_from(sq, 8)) by { reveal_with_fuel(ranks_from, 9); }
    lemma_ranks_no_ws(sq, 8);
    assert(p.len() >= 1) by { reveal_with_fuel(ranks_from, 9); }
    let side = if b.next_move == 0 { seq!['w'] } else { seq!['b'] };
    assert(no_ws(side));
    let c = castle_fen(b.castle_white, b.castle_black);
    let e = ep_fen(b.ep_square);
    let f1 = int_chars(b.fifty_move as int);
    let f2 = int_chars(b.full_moves as int);
    lemma_int_round_trip(b.fifty_move);
    lemma_int_round_trip(b.full_moves);
    lemma_castle_round_trip(b.castle_white, b.castle_black);
    lemma_ep_round_trip(b.ep_square);
    lemma_six_words(p, side, c, e, f1, f2);
    assert(fen_text(b) =~= p + seq![' '] + side + seq![' '] + c + seq![' '] + e + seq![' '] + f1 + seq![' '] + f2);
    let w = words(fen_text(b));
    assert(w == seq![p, side, c, e, f1, f2]);
    assert(w[0] == p && w[1] == side && w[2] == c && w[3] == e && w[4] == f1 && w[5] == f2);
    assert(seq!['w'] != seq!['b']) by { assert(seq!['w'][0] != seq!['b'][0]); }
    assert((if w[1] == seq!['b'] { 1u8 } else { 0u8 }) == b.next_move);

}

/// A FEN that the FEN writer writes comes back unchanged: a board set up
/// from `fen_text(b)` (its fields what `setup_fen` reads from that text)
/// writes `fen_text(b)` again.  These FENs are the canonical ones: each
/// empty run written as one digit, the side as "w" or "b", the castling
/// rights as an ordered part of "KQkq" or "-", the en-passant square as
/// "-" or its name, the two counters in decimal without leading zeros.
pub proof fn law_canonical_fen_round_trip(b: Board, n: Board)
    requires
        b.wf(),
        b.next_move <= 1,
        b.castle_white <= 3,
        b.castle_black <= 3,
        ({
            let w = words(fen_text(b));
            &&& n.square@ == placement_squares(w[0])
            &&& n.next_move == (if w[1] == seq!['b'] { 1u8 } else { 0u8 })
            &&& n.castle_white == castle_rights(w[2], 'K', 'Q')
            &&& n.castle_black == castle_rights(w[2], 'k', 'q')
            &&& n.ep_square == ep_value(w[3])
            &&& n.fifty_move == parse_i32(w[4])->0
            &&& n.full_moves == parse_i32(w[5])->0
        }),
    ensures
        fen_text(n) == fen_text(b),
{
    law_fen_round_trip(b);
    assert(n.square@ == b.square@);
}


/// A canonical FEN: one that some position writes (see `fen_text`), with
/// the side to move 0 or 1 and castling rights 0 to 3 of each side.
pub open spec fn canonical_fen(f: Seq<char>) -> bool {
    exists|b: Board| #[trigger] fen_text(b) == f && b.wf() && b.next_move <= 1 && b.castle_white <= 3
        && b.castle_black <= 3
}

/// Reading a canonical FEN and writing the position again gives the same
/// text: `get_fen` after `set_fen` (whose fields are those `setup_fen`
/// reads, see `set_fen`) inverts it.
pub proof fn law_get_fen_inverts_set_fen(f: Seq<char>, n: Board)
    requires
        canonical_fen(f),
        ({
            let w = words(f);
            &&& n.square@ == placement_squares(w[0])
            &&& n.next_move == (if w[1] == seq!['b'] { 1u8 } else { 0u8 })
            &&& n.castle_white == castle_rights(w[2], 'K', 'Q')
            &&& n.castle_black == castle_rights(w[2], 'k', 'q')
            &&& n.ep_square == ep_value(w[3])
            &&& n.fifty_move == parse_i32(w[4])->0
            &&& n.full_moves == parse_i32(w[5])->0
        }),
    ensures
        fen_ok(f),
        fen_text(n) == f,
{
    let b = choose|b: Board| #[trigger] fen_text(b) == f && b.wf() && b.next_move <= 1 && b.castle_white <= 3
        && b.castle_black <= 3;
    law_fen_round_trip(b);
    law_canonical_fen_round_trip(b, n);
}

}
