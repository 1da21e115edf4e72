use vstd::prelude::*;
use crate::strutil::{string_from_chars, chars_of, push_all, push_decimal, decimal, digit_char, digit_to_char};
use crate::board::{Board, squares_after_make, cw_after, cb_after, ep_after, fifty_after, full_after, lemma_wf_unique};
use crate::tables::AttackTables;
use crate::legalmoves::{legal_moves, find_uci, played};
use crate::displaymove::{lemma_legal_congruent, lemma_san_congruent, san_disambig_chars, can_make_two};
use crate::fen::{fen_ok, fen_valid, parse_i32, parse_i32_exec, is_digit, digits_value};
use crate::globs::MAX_GAME_LINE;
use crate::pgnread::{fen_of, fen_setup};
use crate::pgntext::{pieces, split_chars, trim, trim_chars};
use crate::pgnsearch::text_eq;
use crate::wchess::{new_board, move_uci, get_fen};

verus! {

// Reading what a UCI engine writes back.

/// The whole lines of the first `i` bytes (each with its final newline,
/// each byte read as the character of that code) and the line begun after
/// the last of them.
pub open spec fn output_lines(bs: Seq<u8>, i: int) -> (Seq<Seq<char>>, Seq<char>)
    decreases i,
{
    if i <= 0 {
        (seq![], seq![])
    } else {
        let (ls, cur) = output_lines(bs, i - 1);
        let c = bs[i - 1] as char;
        if bs[i - 1] == 10 {
            (ls.push(cur.push(c)), seq![])
        } else {
            (ls, cur.push(c))
        }
    }
}

/// The lines an engine wrote, each with its newline; a last line not yet
/// ended is left out.
pub fn read_left_output_no_moves(datos: &[u8]) -> (salida: Vec<String>)
    ensures
        salida@.map_values(|s: String| s@) == output_lines(datos@, datos@.len() as int).0,
{
    let mut s: Vec<char> = Vec::new();
    let mut salida: Vec<String> = Vec::new();
    let mut i: usize = 0;
    while i < datos.len()
        invariant
            i <= datos.len(),
            salida@.map_values(|x: String| x@) == output_lines(datos@, i as int).0,
            s@ == output_lines(datos@, i as int).1,
        decreases datos.len() - i,
    {
        let b = datos[i];
        let c = b as char;
        s.push(c);
        if b == 10 {
            let line = string_from_chars(&s);
            let ghost before = salida@;
            salida.push(line);
            assert(salida@.map_values(|x: String| x@) =~= before.map_values(|x: String| x@).push(line@));
            s = Vec::new();
        }
        i = i + 1;
    }
    salida
}

/// The UCI move `u` in the position of the FEN `f` (attack tables `t`):
/// the FEN after it, its SAN and whether it is a move; for a move that is
/// not legal, the FEN of the position as it was and no SAN.  None when the
/// FEN cannot be read or its move counters cannot be counted on.
pub open spec fn uci_play(f: Seq<char>, u: Seq<char>, t: AttackTables) -> Option<(Seq<char>, Seq<char>, bool)> {
    if fen_ok(f) && exists|b: Board| #[trigger] fen_setup(b, f, t) {
        let b = choose|b: Board| #[trigger] fen_setup(b, f, t);
        if b.fifty_move >= i32::MAX - 1 || b.full_moves >= i32::MAX - 1 {
            None
        } else {
            let legal = legal_moves(b);
            let i = find_uci(legal, u, 0);
            if i < legal.len() {
                let m = legal[i];
                Some(
                    (
                        fen_of(squares_after_make(b.square@, m), b.next_move ^ 1u8, cw_after(b.castle_white, m),
                            cb_after(b.castle_black, m), ep_after(m), fifty_after(b.fifty_move, m), full_after(
                            b.full_moves, m)),
                        san_disambig_chars(b, m),
                        m.move_int != 0,
                    ),
                )
            } else {
                Some(
                    (
                        fen_of(b.square@, b.next_move, b.castle_white, b.castle_black, b.ep_square, b.fifty_move,
                            b.full_moves),
                        seq![],
                        false,
                    ),
                )
            }
        }
    } else {
        None
    }
}

/// Plays the UCI move `u` from the FEN `f` on the board `b` (see `uci_play`).
pub(crate) fn play_uci(b: &mut Board, f: &Vec<char>, u: &Vec<char>, Ghost(t): Ghost<AttackTables>) -> (r: Option<
    (Vec<char>, Vec<char>, bool),
>)
    requires
        old(b).wf(),
        old(b).tables == t,
        old(b).end_of_search + 2 < MAX_GAME_LINE,
    ensures
        final(b).wf(),
        final(b).tables == t,
        final(b).end_of_search <= old(b).end_of_search + 1,
        match r {
            None => uci_play(f@, u@, t) is None,
            Some((f2, san, ok)) => uci_play(f@, u@, t) == Some((f2@, san@, ok)),
        },
{
    let fs = string_from_chars(f);
    if !fen_valid(fs.as_str()) {
        return None;
    }
    b.setup_fen(fs);
    let ghost g1 = *b;
    assert(fen_setup(g1, f@, t));
    let ghost bb = choose|bb: Board| #[trigger] fen_setup(bb, f@, t);
    proof {
        lemma_wf_unique(g1, bb);
        lemma_legal_congruent(g1, bb);
    }
    if b.fifty_move >= i32::MAX - 1 || b.full_moves >= i32::MAX - 1 {
        return None;
    }
    assert(can_make_two(g1));
    let us = string_from_chars(u);
    let lm = move_uci(b, us.as_str());
    let ghost g2 = *b;
    let fen = get_fen(b);
    let ghost legal = legal_moves(g1);
    let ghost i = find_uci(legal, u@, 0);
    proof {
        if i < legal.len() {
            lemma_san_congruent(g1, bb, legal[i]);
            assert(played(g1, legal[i], g2));
        } else {
            assert(g2.same_state(g1));
            assert(fen@ == fen_of(g1.square@, g1.next_move, g1.castle_white, g1.castle_black, g1.ep_square,
                g1.fifty_move, g1.full_moves));
            assert(lm.san@ == Seq::<char>::empty());
        }
    }
    let ok = lm.movim.move_int != 0;
    let sv = chars_of(lm.san.as_str());
    let fv = chars_of(fen.as_str());
    Some((fv, sv, ok))
}

/// A text right-aligned in six places.
pub open spec fn pad6(s: Seq<char>) -> Seq<char> {
    if s.len() < 6 { Seq::new((6 - s.len()) as nat, |i: int| ' ') + s } else { s }
}

fn pad6_chars(s: &Vec<char>) -> (r: Vec<char>)
    ensures
        r@ == pad6(s@),
{
    let mut r: Vec<char> = Vec::new();
    if s.len() < 6 {
        let k = 6 - s.len();
        let mut i: usize = 0;
        while i < k
            invariant
                i <= k,
                k == 6 - s.len(),
                r@ == Seq::new(i as nat, |j: int| ' '),
            decreases k - i,
        {
            r.push(' ');
            i = i + 1;
            assert(r@ =~= Seq::new(i as nat, |j: int| ' '));
        }
    }
    push_all(&mut r, s);
    assert(r@ =~= pad6(s@));
    r
}

/// An evaluation in centipawns shown in pawns with two decimals,
/// right-aligned in six places.
pub open spec fn eval_text(v: int) -> Seq<char> {
    let a = if v < 0 { -v } else { v };
    pad6((if v < 0 { seq!['-'] } else { seq![] }) + decimal((a / 100) as nat) + seq![
        '.',
        digit_char(((a % 100) / 10) as nat),
        digit_char((a % 10) as nat),
    ])
}

/// The number read from the digits of a text, every other character
/// passed over ("  1.05" reads 105).
pub open spec fn digit_total(s: Seq<char>) -> int
    decreases s.len(),
{
    if s.len() == 0 {
        0
    } else if is_digit(s.last()) {
        digit_total(s.drop_last()) * 10 + (s.last() as int - '0' as int)
    } else {
        digit_total(s.drop_last())
    }
}

proof fn lemma_no_digits(p: Seq<char>)
    requires
        forall|i: int| 0 <= i < p.len() ==> !is_digit(#[trigger] p[i]),
    ensures
        digit_total(p) == 0,
    decreases p.len(),
{
    if p.len() > 0 {
        lemma_no_digits(p.drop_last());
    }
}

proof fn lemma_digits_after(p: Seq<char>, q: Seq<char>)
    requires
        forall|i: int| 0 <= i < p.len() ==> !is_digit(#[trigger] p[i]),
        forall|i: int| 0 <= i < q.len() ==> is_digit(#[trigger] q[i]),
    ensures
        digit_total(p + q) == digits_value(q),
    decreases q.len(),
{
    if q.len() == 0 {
        assert(p + q =~= p);
        lemma_no_digits(p);
    } else {
        lemma_digits_after(p, q.drop_last());
        assert((p + q).drop_last() =~= p + q.drop_last());
        assert((p + q).last() == q.last());
    }
}

/// The evaluation text of `v` centipawns shows `v` in pawns with exactly
/// two digits after the point: its last three characters are the point
/// and two digits, its digits read `|v|`, and it has a minus sign exactly
/// when `v` is negative ("  1.05" for 105, "  0.05" for 5, " -1.50" for
/// -150).
pub proof fn law_eval_text_reads_back(v: int)
    ensures
        eval_text(v).len() >= 6,
        eval_text(v)[eval_text(v).len() - 3] == '.',
        is_digit(eval_text(v)[eval_text(v).len() - 2]),
        is_digit(eval_text(v)[eval_text(v).len() - 1]),
        digit_total(eval_text(v)) == (if v < 0 { -v } else { v }),
        eval_text(v).contains('-') == (v < 0),
        forall|i: int| 0 <= i < eval_text(v).len() ==> {
            let c = #[trigger] eval_text(v)[i];
            c == ' ' || c == '-' || c == '.' || is_digit(c)
        },
        forall|i: int, j: int| 0 <= i < j < eval_text(v).len() && #[trigger] eval_text(v)[j] == ' ' ==> #[trigger] eval_text(v)[i]
            == ' ',
        eval_text(v).len() == 6 || eval_text(v)[0] != ' ',
{
    let a = if v < 0 { -v } else { v };
    let sg: Seq<char> = if v < 0 { seq!['-'] } else { seq![] };
    let ds = decimal((a / 100) as nat);
    let d1 = digit_char(((a % 100) / 10) as nat);
    let d2 = digit_char((a % 10) as nat);
    let s = sg + ds + seq!['.', d1, d2];
    crate::levels::lemma_decimal_value((a / 100) as nat);
    assert(is_digit(d1) && d1 as int - '0' as int == (a % 100) / 10);
    assert(is_digit(d2) && d2 as int - '0' as int == a % 10);
    let pad: Seq<char> = if s.len() < 6 { Seq::new((6 - s.len()) as nat, |i: int| ' ') } else { seq![] };
    let t = eval_text(v);
    assert(t =~= pad + s);
    let pre = pad + sg;
    assert forall|i: int| 0 <= i < pre.len() implies !is_digit(#[trigger] pre[i]) by {
        if i < pad.len() { assert(pre[i] == pad[i]); } else { assert(pre[i] == sg[i - pad.len()]); }
    }
    lemma_digits_after(pre, ds);
    let u = pre + ds;
    assert(t =~= u.push('.').push(d1).push(d2));
    assert(u.push('.').drop_last() =~= u);
    assert(u.push('.').push(d1).drop_last() =~= u.push('.'));
    assert(u.push('.').push(d1).push(d2).drop_last() =~= u.push('.').push(d1));
    let u1 = u.push('.');
    let u2 = u1.push(d1);
    let u3 = u2.push(d2);
    assert(digit_total(u) == a / 100);
    assert(u1.last() == '.');
    assert(digit_total(u1) == a / 100);
    assert(u2.last() == d1);
    assert(digit_total(u2) == (a / 100) * 10 + (a % 100) / 10);
    assert(u3.last() == d2);
    assert(digit_total(u3) == ((a / 100) * 10 + (a % 100) / 10) * 10 + a % 10);
    assert(digit_total(t) == ((a / 100) * 10 + (a % 100) / 10) * 10 + a % 10);
    assert(((a / 100) * 10 + (a % 100) / 10) * 10 + a % 10 == a) by (nonlinear_arith)
        requires a >= 0;
    assert forall|i: int| 0 <= i < s.len() implies {
        let c = #[trigger] s[i];
        c != ' ' && (c == '-' || c == '.' || is_digit(c))
    } by {
        if i < sg.len() {
            assert(s[i] == sg[i]);
        } else if i < sg.len() + ds.len() {
            assert(s[i] == ds[i - sg.len()]);
            assert(is_digit(ds[i - sg.len()]));
        } else {
            assert(s[i] == seq!['.', d1, d2][i - sg.len() - ds.len()]);
        }
    }
    assert forall|i: int| 0 <= i < t.len() implies {
        let c = #[trigger] t[i];
        (c == ' ' <==> i < pad.len()) && (c == ' ' || c == '-' || c == '.' || is_digit(c))
    } by {
        if i < pad.len() {
            assert(t[i] == pad[i]);
        } else {
            assert(t[i] == s[i - pad.len()]);
        }
    }
    if v < 0 {
        assert(t[pad.len() as int] == '-');
    } else {
        assert forall|i: int| 0 <= i < t.len() implies t[i] != '-' by {
            if i < pad.len() {
                assert(t[i] == pad[i]);
            } else if i < pad.len() + ds.len() {
                assert(t[i] == ds[i - pad.len()]);
                assert(is_digit(ds[i - pad.len()]));
            } else {
                assert(t[i] == seq!['.', d1, d2][i - pad.len() - ds.len()]);
            }
        }
    }
}

fn eval_chars(v: i32) -> (r: Vec<char>)
    ensures
        r@ == eval_text(v as int),
{
    let a: u64 = if v < 0 { (-(v as i64)) as u64 } else { v as u64 };
    let mut s: Vec<char> = Vec::new();
    if v < 0 {
        s.push('-');
    }
    push_decimal(&mut s, a / 100);
    s.push('.');
    s.push(digit_to_char((a % 100) / 10));
    s.push(digit_to_char(a % 10));
    assert(s@ =~= (if v < 0 { seq!['-'] } else { seq![] }) + decimal((a / 100) as nat) + seq![
        '.',
        digit_char(((a % 100) / 10) as nat),
        digit_char((a % 10) as nat),
    ]);
    pad6_chars(&s)
}

/// Where a line of the engine's analysis stands while it is written: the
/// text so far, the position reached, the move count, whether the first
/// move of the line is still to come, how many moves were written plus
/// one, and whether the moves have begun.
pub struct PvState {
    pub text: Seq<char>,
    pub fen: Seq<char>,
    pub num_mov: int,
    pub start_pv: bool,
    pub shown: int,
    pub movs: bool,
}

pub open spec fn w_depth() -> Seq<char> { seq!['d', 'e', 'p', 't', 'h'] }
pub open spec fn w_cp() -> Seq<char> { seq!['c', 'p'] }
pub open spec fn w_mate() -> Seq<char> { seq!['m', 'a', 't', 'e'] }
pub open spec fn w_pv() -> Seq<char> { seq!['p', 'v'] }
pub open spec fn w_info() -> Seq<char> { seq!['i', 'n', 'f', 'o'] }
pub open spec fn w_bestmove() -> Seq<char> { seq!['b', 'e', 's', 't', 'm', 'o', 'v', 'e'] }
pub open spec fn depth_label() -> Seq<char> { seq!['D', 'e', 'p', 't', 'h', ':', ' '] }
pub open spec fn eval_label() -> Seq<char> { seq!['\t', 'E', 'v', 'a', 'l', '.', ':', '\t'] }
pub open spec fn mate_label() -> Seq<char> { seq!['\t', 'M', 'a', 't', 'e', ':', '\t'] }
pub open spec fn moves_label() -> Seq<char> { seq!['\t', 'M', 'o', 'v', 'e', 's', '.', ':', ' '] }
pub open spec fn best_label() -> Seq<char> {
    seq!['M', 'e', 'j', 'o', 'r', ' ', 'j', 'u', 'g', 'a', 'd', 'a', ':', '\t', '1']
}

/// The text of the line after the word `tok`, which follows `prev`: the
/// depth, the evaluation or the mate count is written after its word; from
/// the word "pv" on, each word is a move in UCI, written in SAN with the
/// move numbers; after the eighteenth move the text is done (`Err`).  None
/// when an evaluation is no number, or a move's position cannot be set up.
pub open spec fn info_step(st: PvState, prev: Seq<char>, tok: Seq<char>, t: AttackTables) -> Option<
    Result<PvState, Seq<char>>,
> {
    if prev == w_cp() && parse_i32(tok) is None {
        None
    } else {
        let t4 = label_text(st.text, prev, tok);
        let movs = st.movs || prev == w_pv();
        if !movs {
            Some(Ok(PvState { text: t4, ..st }))
        } else {
            match uci_play(st.fen, trim(tok), t) {
                None => None,
                Some((f2, san, _ok)) => {
                    let parts = pieces(f2, ' ');
                    if parts.len() < 2 {
                        None
                    } else {
                        let n = st.num_mov + 1;
                        let black_first = n % 2 == 0 && parts[1] == seq!['w'] && st.start_pv;
                        let text = move_text(t4, n, black_first, san);
                        let shown = st.shown + 1;
                        if shown > 18 {
                            Some(Err(text + seq!['\n']))
                        } else {
                            Some(
                                Ok(
                                    PvState {
                                        text,
                                        fen: f2,
                                        num_mov: if black_first { n + 1 } else { n },
                                        start_pv: false,
                                        shown,
                                        movs,
                                    },
                                ),
                            )
                        }
                    }
                },
            }
        }
    }
}

/// The text after the word `tok` following `prev`, when it is no move:
/// the depth starts the text anew; the evaluation, the mate count and the
/// start of the moves are added.
pub open spec fn label_text(text: Seq<char>, prev: Seq<char>, tok: Seq<char>) -> Seq<char> {
    let t1 = if prev == w_depth() { depth_label() + tok + seq![' '] } else { text };
    let t2 = if prev == w_cp() { t1 + eval_label() + eval_text(parse_i32(tok)->0 as int) + seq![' '] } else { t1 };
    let t3 = if prev == w_mate() { t2 + mate_label() + pad6(tok) + seq![' '] } else { t2 };
    if prev == w_pv() { t3 + moves_label() } else { t3 }
}

/// The text after the move `san`, the `n`-th half-move of the line: its
/// number before a white move, or before the first move when black is to
/// play (marked "*").
pub open spec fn move_text(t4: Seq<char>, n: int, black_first: bool, san: Seq<char>) -> Seq<char> {
    if black_first {
        seq!['*'] + t4 + decimal((n / 2) as nat) + seq!['.', '.', '.', ' '] + san + seq![' ']
    } else if n % 2 == 0 {
        t4 + seq![' '] + decimal((n / 2) as nat) + seq!['.', ' '] + san + seq![' ']
    } else {
        t4 + seq![' '] + san + seq![' ']
    }
}

/// The text of the line from the word `toks[i]` on (see `info_step`);
/// empty when the line ends before its eighteenth move.
pub open spec fn info_from(toks: Seq<Seq<char>>, i: int, st: PvState, t: AttackTables) -> Option<Seq<char>>
    decreases toks.len() - i,
{
    if i < 1 || i >= toks.len() {
        Some(seq![])
    } else {
        match info_step(st, toks[i - 1], toks[i], t) {
            None => None,
            Some(Err(x)) => Some(x),
            Some(Ok(s2)) => info_from(toks, i + 1, s2, t),
        }
    }
}

/// The text shown for a line `l` of the engine in the position of the FEN
/// `f`: for "bestmove", the best move in SAN after its move number; for
/// "info", the depth, evaluation, mate count and moves (see `info_from`);
/// nothing for other lines.  None when the line cannot be read.
pub open spec fn pretty(l: Seq<char>, f: Seq<char>, t: AttackTables) -> Option<Seq<char>> {
    let toks = pieces(l, ' ');
    if toks[0] == w_bestmove() {
        if toks.len() < 2 || pieces(f, ' ').len() < 2 {
            None
        } else {
            match uci_play(f, trim(toks[1]), t) {
                None => None,
                Some((_f2, san, ok)) => Some(
                    if !ok {
                        best_label() + seq!['.', '.', '.', ' '] + toks[1] + seq!['\n']
                    } else if pieces(f, ' ')[1] == seq!['w'] {
                        best_label() + seq!['.', ' '] + san + seq!['\n']
                    } else {
                        best_label() + seq!['.', '.', '.', ' '] + san + seq!['\n']
                    },
                ),
            }
        }
    } else if toks[0] == w_info() {
        info_from(toks, 1, PvState { text: seq![], fen: f, num_mov: 1, start_pv: true, shown: 1, movs: false }, t)
    } else {
        Some(seq![])
    }
}

fn push_str(v: &mut Vec<char>, s: &str)
    ensures
        final(v)@ == old(v)@ + s@,
{
    let c = chars_of(s);
    push_all(v, &c);
}

/// The text of a "bestmove" line `toks` (see `pretty`).
fn best_text(b: &mut Board, toks: &Vec<Vec<char>>, fv: &Vec<char>, Ghost(ts): Ghost<Seq<Seq<char>>>, Ghost(
    t,
): Ghost<AttackTables>) -> (r: Option<Vec<char>>)
    requires
        old(b).wf(),
        old(b).tables == t,
        old(b).end_of_search == 0,
        toks.len() == ts.len(),
        forall|j: int| 0 <= j < ts.len() ==> (#[trigger] toks@[j])@ == ts[j],
    ensures
        final(b).wf(),
        final(b).tables == t,
        match r {
            Some(x) => ({
                if ts.len() < 2 || pieces(fv@, ' ').len() < 2 {
                    false
                } else {
                    match uci_play(fv@, trim(ts[1]), t) {
                        None => false,
                        Some((_f2, san, ok)) => x@ == (if !ok {
                            best_label() + seq!['.', '.', '.', ' '] + ts[1] + seq!['\n']
                        } else if pieces(fv@, ' ')[1] == seq!['w'] {
                            best_label() + seq!['.', ' '] + san + seq!['\n']
                        } else {
                            best_label() + seq!['.', '.', '.', ' '] + san + seq!['\n']
                        }),
                    }
                }
            }),
            None => ts.len() < 2 || pieces(fv@, ' ').len() < 2 || uci_play(fv@, trim(ts[1]), t) is None,
        },
{
    proof { reveal_strlit("Mejor jugada:\t1"); }
    let parts = split_chars(fv, ' ');
    if toks.len() < 2 || parts.len() < 2 {
        return None;
    }
    let u = trim_chars(&toks[1]);
    assert(toks[1]@ == ts[1]);
    match play_uci(b, fv, &u, Ghost(t)) {
        None => None,
        Some((_f2, san, ok)) => {
            let mut out: Vec<char> = Vec::new();
            push_str(&mut out, "Mejor jugada:\t1");
            assert(out@ =~= best_label());
            let white = parts[1].len() == 1 && parts[1][0] == 'w';
            assert(white == (pieces(fv@, ' ')[1] == seq!['w'])) by {
                assert(parts[1]@ == pieces(fv@, ' ')[1]);
                if white { assert(parts[1]@ =~= seq!['w']); }
            }
            if !ok {
                out.push('.'); out.push('.'); out.push('.'); out.push(' ');
                push_all(&mut out, &toks[1]);
                out.push('\n');
                assert(out@ =~= best_label() + seq!['.', '.', '.', ' '] + ts[1] + seq!['\n']);
            } else if white {
                out.push('.'); out.push(' ');
                push_all(&mut out, &san);
                out.push('\n');
                assert(out@ =~= best_label() + seq!['.', ' '] + san@ + seq!['\n']);
            } else {
                out.push('.'); out.push('.'); out.push('.'); out.push(' ');
                push_all(&mut out, &san);
                out.push('\n');
                assert(out@ =~= best_label() + seq!['.', '.', '.', ' '] + san@ + seq!['\n']);
            }
            Some(out)
        },
    }
}

/// The text of an "info" line `toks` (see `info_from`).
fn info_text(b: &mut Board, toks: &Vec<Vec<char>>, fv: Vec<char>, Ghost(ts): Ghost<Seq<Seq<char>>>, Ghost(
    t,
): Ghost<AttackTables>) -> (r: Option<Vec<char>>)
    requires
        old(b).wf(),
        old(b).tables == t,
        old(b).end_of_search == 0,
        toks.len() == ts.len(),
        forall|j: int| 0 <= j < ts.len() ==> (#[trigger] toks@[j])@ == ts[j],
    ensures
        final(b).wf(),
        final(b).tables == t,
        match r {
            Some(x) => info_from(ts, 1, (PvState { text: seq![], fen: fv@, num_mov: 1, start_pv: true, shown: 1,
                movs: false }), t) == Some(x@),
            None => info_from(ts, 1, (PvState { text: seq![], fen: fv@, num_mov: 1, start_pv: true, shown: 1,
                movs: false }), t) is None,
        },
{
    let ghost st0 = PvState { text: seq![], fen: fv@, num_mov: 1, start_pv: true, shown: 1, movs: false };
    let mut w = PvWriter { text: Vec::new(), fen: fv, num_mov: 1, start_pv: true, shown: 1, movs: false };
    assert(w.state() == st0);
    let mut i: usize = 1;
    while i < toks.len()
        invariant
            1 <= i,
            toks.len() == ts.len(),
            forall|j: int| 0 <= j < ts.len() ==> (#[trigger] toks@[j])@ == ts[j],
            b.wf(),
            b.tables == t,
            w.inv(*b),
            info_from(ts, 1, st0, t) == info_from(ts, i as int, w.state(), t),
            st0 == (PvState { text: seq![], fen: fv@, num_mov: 1, start_pv: true, shown: 1, movs: false }),
        decreases toks.len() - i,
    {
        assert(toks[i - 1]@ == ts[i - 1] && toks[i as int]@ == ts[i as int]);
        let ghost sti = w.state();
        match w.turn(b, &toks[i - 1], &toks[i], Ghost(t)) {
            None => {
                assert(info_from(ts, i as int, sti, t) is None);
                return None;
            },
            Some(Some(x)) => {
                let v = chars_of(x.as_str());
                assert(info_from(ts, i as int, sti, t) == Some(v@));
                return Some(v);
            },
            Some(None) => {},
        }
        i = i + 1;
    }
    Some(Vec::new())
}

/// The text shown for the line `lv` (see `pretty`), worked out on the
/// board `b`, whose attack tables are `t`.
fn pretty_on(b: &mut Board, lv: &Vec<char>, fv: &Vec<char>, Ghost(t): Ghost<AttackTables>) -> (r: Option<Vec<char>>)
    requires
        old(b).wf(),
        old(b).tables == t,
    ensures
        final(b).wf(),
        final(b).tables == t,
        match r {
            Some(x) => pretty(lv@, fv@, t) == Some(x@),
            None => pretty(lv@, fv@, t) is None,
        },
{
    let ghost b0 = *b;
    b.end_of_search = 0;
    proof { Board::lemma_wf_frame(b0, *b); }
    let toks = split_chars(lv, ' ');
    let ghost ts = pieces(lv@, ' ');
    proof {
        reveal_strlit("bestmove");
        reveal_strlit("info");
        crate::pgntext::lemma_pieces_len(lv@, ' ');
    }
    let w_best = chars_of("bestmove");
    let w_inf = chars_of("info");
    assert(w_best@ == w_bestmove());
    assert(w_inf@ == w_info());
    assert(toks[0]@ == ts[0]);
    if text_eq(&toks[0], &w_best) {
        return best_text(b, &toks, fv, Ghost(ts), Ghost(t));
    }
    if !text_eq(&toks[0], &w_inf) {
        return Some(Vec::new());
    }
    let f2 = copy_chars(fv);
    info_text(b, &toks, f2, Ghost(ts), Ghost(t))
}

/// The text shown for a line written by the engine, in the position of the
/// FEN `fen_actual` (see `pretty`).
pub fn write_pretty(linea: String, fen_actual: String) -> (r: Option<String>)
    ensures
        exists|t: AttackTables| #[trigger] t.wf() && match r {
            Some(x) => pretty(linea@, fen_actual@, t) == Some(x@),
            None => pretty(linea@, fen_actual@, t) is None,
        },
{
    let mut b = new_board();
    let ghost t = b.tables;
    assert(t.wf());
    let lv = chars_of(linea.as_str());
    let fv = chars_of(fen_actual.as_str());
    match pretty_on(&mut b, &lv, &fv, Ghost(t)) {
        None => None,
        Some(v) => Some(string_from_chars(&v)),
    }
}

/// `s` holds the text `w`.
pub open spec fn holds(s: Seq<char>, w: Seq<char>) -> bool {
    exists|i: int| 0 <= i && i + w.len() <= s.len() && #[trigger] s.subrange(i, i + w.len()) == w
}

fn holds_exec(s: &Vec<char>, w: &Vec<char>) -> (r: bool)
    ensures
        r == holds(s@, w@),
{
    if w.len() > s.len() {
        return false;
    }
    let mut i: usize = 0;
    while i <= s.len() - w.len()
        invariant
            w.len() <= s.len(),
            forall|j: int| 0 <= j < i ==> #[trigger] s@.subrange(j, j + w.len()) != w@,
        decreases s.len() - i,
    {
        let mut k: usize = 0;
        let mut same = true;
        while k < w.len()
            invariant
                i + w.len() <= s.len(),
                k <= w.len(),
                same == (forall|m: int| 0 <= m < k ==> s@[i + m] == w@[m]),
            decreases w.len() - k,
        {
            if s[i + k] != w[k] {
                same = false;
            }
            k = k + 1;
        }
        if same {
            assert(s@.subrange(i as int, i + w.len()) =~= w@);
            return true;
        }
        assert(s@.subrange(i as int, i + w.len()) != w@) by {
            let m = choose|m: int| 0 <= m < w.len() && s@[i + m] != w@[m];
            assert(s@.subrange(i as int, i + w.len())[m] == s@[i + m]);
        }
        i = i + 1;
    }
    assert forall|j: int| 0 <= j && j + w.len() <= s.len() implies #[trigger] s@.subrange(j, j + w.len()) != w@ by {
        assert(j < i);
    }
    false
}

/// What reading the engine's output leaves: the lines shown (the last four
/// at most), whether the analysis has ended, and how many times the engine
/// was told to stop.
pub struct OutputState {
    pub shown: Seq<Seq<char>>,
    pub done: bool,
    pub stops: int,
}

/// The lines shown after one more: the last four.
pub open spec fn keep_four(v: Seq<Seq<char>>, l: Seq<char>) -> Seq<Seq<char>> {
    let w = v.push(l);
    if w.len() > 4 { w.drop_first() } else { w }
}

/// Reading a finished line `l` of the engine's output in the position of
/// the FEN `f`: its text (see `pretty`) is shown when it has two characters
/// or more; a mate stops the engine; a best move stops it and ends the
/// analysis.  None when the line cannot be read.
pub open spec fn output_line(st: OutputState, l: Seq<char>, f: Seq<char>, t: AttackTables) -> Option<OutputState> {
    match pretty(trim(l), f, t) {
        None => None,
        Some(linea) => {
            let stops1 = if holds(linea, seq!['M', 'a', 't', 'e']) { st.stops + 1 } else { st.stops };
            if linea.len() >= 2 {
                let done = holds(linea, seq!['M', 'e', 'j', 'o', 'r']) || holds(linea, w_bestmove());
                Some(OutputState { shown: keep_four(st.shown, linea), done, stops: if done { stops1 + 1 } else { stops1 } })
            } else {
                Some(OutputState { stops: stops1, ..st })
            }
        },
    }
}

/// Reading the bytes `bs[i..]` of the engine's output, with `cur` the line
/// begun: carriage returns and tabs are dropped, a line feed ends a line
/// that is not empty; the reading stops when the analysis ends.
pub open spec fn output_from(st: OutputState, bs: Seq<u8>, i: int, cur: Seq<char>, f: Seq<char>, t: AttackTables) -> Option<
    OutputState,
>
    decreases bs.len() - i,
{
    if i < 0 || i >= bs.len() {
        Some(st)
    } else if bs[i] == 13 || bs[i] == 9 {
        output_from(st, bs, i + 1, cur, f, t)
    } else if bs[i] != 10 {
        output_from(st, bs, i + 1, cur.push(bs[i] as char), f, t)
    } else if cur.len() == 0 {
        output_from(st, bs, i + 1, cur, f, t)
    } else {
        match output_line(st, cur, f, t) {
            None => None,
            Some(s2) => if s2.done { Some(s2) } else { output_from(s2, bs, i + 1, seq![], f, t) },
        }
    }
}

/// Reads a chunk of the engine's output in the position of the FEN
/// `fen_actual` (see `output_from`): updates the lines shown and returns
/// whether the analysis has ended and how many times the engine must be
/// told to stop; None when a line cannot be read.
pub fn read_left_output(shown_lines: &mut Vec<String>, datos: &[u8], fen_actual: &String) -> (r: Option<(bool, usize)>)
    ensures
        exists|t: AttackTables| #[trigger] t.wf() && match output_from(
            (OutputState { shown: old(shown_lines)@.map_values(|x: String| x@), done: false, stops: 0 }),
            datos@,
            0,
            seq![],
            fen_actual@,
            t,
        ) {
            None => r is None,
            Some(st) => r == Some((st.done, st.stops as usize)) && final(shown_lines)@.map_values(|x: String| x@)
                == st.shown,
        },
{
    let mut b = new_board();
    let ghost t = b.tables;
    assert(t.wf());
    let fv = chars_of(fen_actual.as_str());
    let ghost st0 = OutputState { shown: shown_lines@.map_values(|x: String| x@), done: false, stops: 0 };
    proof {
        reveal_strlit("Mate");
        reveal_strlit("Mejor");
        reveal_strlit("bestmove");
    }
    let w_mate = chars_of("Mate");
    let w_mejor = chars_of("Mejor");
    let w_best = chars_of("bestmove");
    assert(w_mate@ == seq!['M', 'a', 't', 'e'] && w_mejor@ == seq!['M', 'e', 'j', 'o', 'r'] && w_best@ == w_bestmove());
    let mut s: Vec<char> = Vec::new();
    let mut stops: usize = 0;
    let mut i: usize = 0;
    while i < datos.len()
        invariant
            i <= datos.len(),
            b.wf(),
            b.tables == t,
            stops + s.len() <= i,
            fv@ == fen_actual@,
            t.wf(),
            st0 == (OutputState { shown: old(shown_lines)@.map_values(|x: String| x@), done: false, stops: 0 }),
            w_mate@ == seq!['M', 'a', 't', 'e'],
            w_mejor@ == seq!['M', 'e', 'j', 'o', 'r'],
            w_best@ == w_bestmove(),
            output_from(st0, datos@, 0, seq![], fen_actual@, t) == output_from((OutputState {
                shown: shown_lines@.map_values(|x: String| x@),
                done: false,
                stops: stops as int,
            }), datos@, i as int, s@, fen_actual@, t),
        decreases datos.len() - i,
    {
        let c = datos[i];
        if c == 13 || c == 9 {
            i = i + 1;
            continue;
        }
        if c != 10 {
            s.push(c as char);
            i = i + 1;
            continue;
        }
        if s.len() > 0 {
            let ghost st = OutputState { shown: shown_lines@.map_values(|x: String| x@), done: false, stops: stops as int };
            let tl = trim_chars(&s);
            let linea = match pretty_on(&mut b, &tl, &fv, Ghost(t)) {
                None => {
                    assert(output_line(st, s@, fen_actual@, t) is None);
                    assert(output_from(st, datos@, i as int, s@, fen_actual@, t) is None);
                    return None;
                },
                Some(v) => v,
            };
            if holds_exec(&linea, &w_mate) {
                stops = stops + 1;
            }
            if linea.len() >= 2 {
                let ghost before = shown_lines@.map_values(|x: String| x@);
                shown_lines.push(string_from_chars(&linea));
                if shown_lines.len() > 4 {
                    let _ = shown_lines.remove(0);
                }
                assert(shown_lines@.map_values(|x: String| x@) =~= keep_four(before, linea@));
                if holds_exec(&linea, &w_mejor) || holds_exec(&linea, &w_best) {
                    stops = stops + 1;
                    assert(output_line(st, s@, fen_actual@, t) == Some(OutputState {
                        shown: shown_lines@.map_values(|x: String| x@),
                        done: true,
                        stops: stops as int,
                    }));
                    assert(output_from(st, datos@, i as int, s@, fen_actual@, t) == Some(OutputState {
                        shown: shown_lines@.map_values(|x: String| x@),
                        done: true,
                        stops: stops as int,
                    }));
                    return Some((true, stops));
                }
            }
            s = Vec::new();
        }
        i = i + 1;
    }
    Some((false, stops))
}

/// A line of the engine's analysis being written (see `PvState`).
pub struct PvWriter {
    pub text: Vec<char>,
    pub fen: Vec<char>,
    pub num_mov: i32,
    pub start_pv: bool,
    pub shown: i32,
    pub movs: bool,
}

impl PvWriter {
    pub open spec fn state(self) -> PvState {
        PvState {
            text: self.text@,
            fen: self.fen@,
            num_mov: self.num_mov as int,
            start_pv: self.start_pv,
            shown: self.shown as int,
            movs: self.movs,
        }
    }

    /// The counts stay small, and the board has room for the moves to come.
    pub open spec fn inv(self, b: Board) -> bool {
        &&& b.end_of_search + 1 <= self.shown
        &&& 1 <= self.shown <= 18
        &&& 1 <= self.num_mov <= 2 * self.shown
    }

    /// Adds the word `tok`, which follows `prev` (see `info_step`): None
    /// when the line cannot be read, the finished text when it is done.
    fn turn(&mut self, b: &mut Board, prev: &Vec<char>, tok: &Vec<char>, Ghost(t): Ghost<AttackTables>) -> (r: Option<
        Option<String>,
    >)
        requires
            old(b).wf(),
            old(b).tables == t,
            old(self).inv(*old(b)),
        ensures
            final(b).wf(),
            final(b).tables == t,
            match r {
                None => info_step(old(self).state(), prev@, tok@, t) is None,
                Some(Some(x)) => info_step(old(self).state(), prev@, tok@, t) == Some(Err::<PvState, Seq<char>>(x@)),
                Some(None) => final(self).inv(*final(b)) && info_step(old(self).state(), prev@, tok@, t) == Some(
                    Ok::<PvState, Seq<char>>(final(self).state()),
                ),
            },
    {
        let ghost st = self.state();
        proof {
            reveal_strlit("cp");
            reveal_strlit("pv");
        }
        let w_c = chars_of("cp");
        let w_p = chars_of("pv");
        assert(w_c@ == w_cp() && w_p@ == w_pv());
        let mut cp: i32 = 0;
        if text_eq(prev, &w_c) {
            match parse_i32_exec(tok) {
                None => { return None; },
                Some(v) => { cp = v; },
            }
        }
        label_chars(&mut self.text, prev, tok, cp);
        if text_eq(prev, &w_p) {
            self.movs = true;
        }
        assert(self.text@ == label_text(st.text, prev@, tok@));
        if !self.movs {
            return Some(None);
        }
        let u = trim_chars(tok);
        let (f2, san, ok) = match play_uci(b, &self.fen, &u, Ghost(t)) {
            None => { return None; },
            Some((f2, san, ok)) => (f2, san, ok),
        };
        assert(uci_play(st.fen, trim(tok@), t) == Some((f2@, san@, ok)));
        let parts = split_chars(&f2, ' ');
        if parts.len() < 2 {
            return None;
        }
        let n = self.num_mov + 1;
        let white = parts[1].len() == 1 && parts[1][0] == 'w';
        assert(white == (pieces(f2@, ' ')[1] == seq!['w'])) by {
            assert(parts[1]@ == pieces(f2@, ' ')[1]);
            if white { assert(parts[1]@ =~= seq!['w']); }
        }
        let black_first = n % 2 == 0 && white && self.start_pv;
        let nt = move_chars(&self.text, n, black_first, &san);
        self.text = nt;
        self.fen = f2;
        self.num_mov = if black_first { n + 1 } else { n };
        self.start_pv = false;
        self.shown = self.shown + 1;
        assert(self.text@ == move_text(label_text(st.text, prev@, tok@), n as int, black_first, san@));
        if self.shown > 18 {
            let mut out = copy_chars(&self.text);
            out.push('\n');
            assert(st.movs || prev@ == w_pv());
            assert(!(prev@ == w_cp() && parse_i32(tok@) is None));
            assert(pieces(f2@, ' ').len() >= 2);
            let ghost bf = (st.num_mov + 1) % 2 == 0 && pieces(f2@, ' ')[1] == seq!['w'] && st.start_pv;
            assert(bf == black_first);
            let ghost expected = move_text(label_text(st.text, prev@, tok@), st.num_mov + 1, bf, san@) + seq!['\n'];
            assert(out@ == expected);
            assert(st.shown + 1 > 18);
            assert(info_step(st, prev@, tok@, t) == Some(Err::<PvState, Seq<char>>(expected)));
            return Some(Some(string_from_chars(&out)));
        }
        Some(None)
    }
}

fn copy_chars(v: &Vec<char>) -> (r: Vec<char>)
    ensures
        r@ == v@,
{
    let mut r: Vec<char> = Vec::new();
    push_all(&mut r, v);
    r
}

/// Adds to `text` what the word `tok` after `prev` writes (see `label_text`).
fn label_chars(text: &mut Vec<char>, prev: &Vec<char>, tok: &Vec<char>, cp: i32)
    requires
        prev@ == w_cp() ==> parse_i32(tok@) == Some(cp),
    ensures
        final(text)@ == label_text(old(text)@, prev@, tok@),
{
    proof {
        reveal_strlit("depth");
        reveal_strlit("cp");
        reveal_strlit("mate");
        reveal_strlit("pv");
        reveal_strlit("Depth: ");
        reveal_strlit("\tEval.:\t");
        reveal_strlit("\tMate:\t");
        reveal_strlit("\tMoves.: ");
    }
    let w_dep = chars_of("depth");
    let w_c = chars_of("cp");
    let w_mat = chars_of("mate");
    let w_p = chars_of("pv");
    assert(w_dep@ == w_depth() && w_c@ == w_cp() && w_mat@ == w_mate() && w_p@ == w_pv());
    let ghost t0 = text@;
    if text_eq(prev, &w_dep) {
        *text = Vec::new();
        push_str(text, "Depth: ");
        push_all(text, tok);
        text.push(' ');
        assert(text@ =~= depth_label() + tok@ + seq![' ']);
    }
    let ghost t1 = text@;
    assert(t1 == (if prev@ == w_depth() { depth_label() + tok@ + seq![' '] } else { t0 }));
    if text_eq(prev, &w_c) {
        push_str(text, "\tEval.:\t");
        let e = eval_chars(cp);
        push_all(text, &e);
        text.push(' ');
        assert(text@ =~= t1 + eval_label() + eval_text(parse_i32(tok@)->0 as int) + seq![' ']);
    }
    let ghost t2 = text@;
    if text_eq(prev, &w_mat) {
        push_str(text, "\tMate:\t");
        let p6 = pad6_chars(tok);
        push_all(text, &p6);
        text.push(' ');
        assert(text@ =~= t2 + mate_label() + pad6(tok@) + seq![' ']);
    }
    let ghost t3 = text@;
    if text_eq(prev, &w_p) {
        push_str(text, "\tMoves.: ");
        assert(text@ =~= t3 + moves_label());
    }
}

/// The text after a move (see `move_text`).
fn move_chars(t4: &Vec<char>, n: i32, black_first: bool, san: &Vec<char>) -> (nt: Vec<char>)
    requires
        2 <= n,
    ensures
        nt@ == move_text(t4@, n as int, black_first, san@),
{
    let mut nt: Vec<char> = Vec::new();
    if black_first {
        nt.push('*');
        push_all(&mut nt, t4);
        push_decimal(&mut nt, (n / 2) as u64);
        nt.push('.'); nt.push('.'); nt.push('.'); nt.push(' ');
        push_all(&mut nt, san);
        nt.push(' ');
        assert(nt@ =~= seq!['*'] + t4@ + decimal((n / 2) as nat) + seq!['.', '.', '.', ' '] + san@ + seq![' ']);
    } else if n % 2 == 0 {
        push_all(&mut nt, t4);
        nt.push(' ');
        push_decimal(&mut nt, (n / 2) as u64);
        nt.push('.'); nt.push(' ');
        push_all(&mut nt, san);
        nt.push(' ');
        assert(nt@ =~= t4@ + seq![' '] + decimal((n / 2) as nat) + seq!['.', ' '] + san@ + seq![' ']);
    } else {
        push_all(&mut nt, t4);
        nt.push(' ');
        push_all(&mut nt, san);
        nt.push(' ');
        assert(nt@ =~= t4@ + seq![' '] + san@ + seq![' ']);
    }
    nt
}

}
