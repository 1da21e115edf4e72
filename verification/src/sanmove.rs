use vstd::prelude::*;
use crate::board::Board;
use crate::globs::{file_char, file_of, rank_char, rank_of, square_name, files, ranks, file_to_char,
    rank_to_char};
use crate::movim::{Movim, uci_chars};
use crate::legalmoves::{LegalMove, legal_moves, find_uci, played, can_make, find_legal_uci};
use crate::displaymove::can_make_two;
use crate::sanparse::{SanLayout, san_matches, san_layout, parse_san, is_piece_letter, first_layout, layout_of};
use crate::strutil::{chars_of, string_from_chars};

verus! {

// Playing a move given in SAN: castling by its text, a promotion by the
// end of its UCI, and every other move by the SAN grammar (see `sanparse`),
// matched against the legal moves in their order.

pub open spec fn is_ascii_text(s: Seq<char>) -> bool {
    forall|i: int| 0 <= i < s.len() ==> (#[trigger] s[i] as int) < 128
}

pub open spec fn castle_short_text(s: Seq<char>) -> bool {
    s == seq!['O', '-', 'O'] || s == seq!['O', '-', 'O', '+'] || s == seq!['O', '-', 'O', '#']
}

pub open spec fn castle_long_text(s: Seq<char>) -> bool {
    s == seq!['O', '-', 'O', '-', 'O'] || s == seq!['O', '-', 'O', '-', 'O', '+'] || s == seq![
        'O',
        '-',
        'O',
        '-',
        'O',
        '#',
    ]
}

/// The king's move of a castling, in UCI.
pub open spec fn castle_uci(side: u8, short: bool) -> Seq<char> {
    if side == 0 {
        if short { seq!['e', '1', 'g', '1'] } else { seq!['e', '1', 'c', '1'] }
    } else {
        if short { seq!['e', '8', 'g', '8'] } else { seq!['e', '8', 'c', '8'] }
    }
}

pub open spec fn is_upper_promo(c: char) -> bool {
    c == 'Q' || c == 'R' || c == 'B' || c == 'N'
}

/// The text looked at for a promotion: without its check mark, or whole
/// when it ends with a promotion letter, else empty.
pub open spec fn when_promo(s: Seq<char>) -> Seq<char> {
    if s.len() > 0 && (s.last() == '+' || s.last() == '#') {
        s.drop_last()
    } else if s.len() > 0 && is_upper_promo(s.last()) {
        s
    } else {
        Seq::empty()
    }
}

/// The move is read as a promotion first.
pub open spec fn promo_branch(s: Seq<char>) -> bool {
    let w = when_promo(s);
    w.len() > 0 && is_upper_promo(w.last())
}

/// The first position of `c` in `s` from `i` on, or the length of `s`.
pub open spec fn index_of(s: Seq<char>, c: char, i: int) -> int
    decreases s.len() - i,
{
    if i < 0 || i >= s.len() {
        s.len() as int
    } else if s[i] == c {
        i
    } else {
        index_of(s, c, i + 1)
    }
}

pub open spec fn lower_promo(c: char) -> Seq<char> {
    if c == 'Q' { seq!['q'] } else if c == 'R' { seq!['r'] } else if c == 'B' { seq!['b'] } else if c
        == 'N' { seq!['n'] } else { seq![] }
}

/// The UCI promotion letter read from a promotion text: after "=" the
/// text up to a further "=" must be one letter; without "=" the last letter.
pub open spec fn promo_minus(w: Seq<char>) -> Seq<char> {
    let e = index_of(w, '=', 0);
    if e < w.len() {
        let rest = w.skip(e + 1);
        let part = rest.take(index_of(rest, '=', 0));
        if part.len() == 1 { lower_promo(part[0]) } else { seq![] }
    } else {
        lower_promo(w.last())
    }
}

/// The destination read from a promotion text: the two characters before
/// the "=" (all of them in a text of four), else the two before the last.
pub open spec fn promo_to(w: Seq<char>) -> Seq<char> {
    let e = index_of(w, '=', 0);
    if e < w.len() {
        let part = w.take(e);
        if w.len() == 4 { part } else { part.skip(part.len() - 2) }
    } else if w.len() > 3 {
        w.subrange(w.len() - 3, w.len() - 1)
    } else {
        w.take(2)
    }
}

/// The promotion text holds the characters that `promo_to` takes.
pub open spec fn promo_text_ok(w: Seq<char>) -> bool {
    let e = index_of(w, '=', 0);
    if e < w.len() { w.len() == 4 || e >= 2 } else { w.len() >= 2 }
}

pub open spec fn ends_with(s: Seq<char>, e: Seq<char>) -> bool {
    e.len() <= s.len() && s.skip(s.len() - e.len()) == e
}

/// The first move of `ms` from `i` on whose UCI ends with `e`.
pub open spec fn find_ending(ms: Seq<Movim>, e: Seq<char>, i: int) -> int
    decreases ms.len() - i,
{
    if i < 0 || i >= ms.len() {
        ms.len() as int
    } else if ends_with(uci_chars(ms[i]), e) {
        i
    } else {
        find_ending(ms, e, i + 1)
    }
}

/// The move leaves from the file and the rank that the SAN writes, where
/// it follows the grammar and writes them ("exd8=Q" names a move from the
/// e-file).
pub open spec fn from_written(m: Movim, s: Seq<char>) -> bool {
    let l = san_layout(s);
    san_matches(s) ==> {
        &&& l.file == 1 ==> file_char(file_of(m.from_sq() as int)) == s[l.file_at()]
        &&& l.rank == 1 ==> rank_char(rank_of(m.from_sq() as int)) == s[l.rank_at()]
    }
}

/// The first move of `ms` from `i` on whose UCI ends with `e` and that
/// leaves from where the SAN `s` says (see `from_written`).
pub open spec fn find_promo(ms: Seq<Movim>, e: Seq<char>, s: Seq<char>, i: int) -> int
    decreases ms.len() - i,
{
    if i < 0 || i >= ms.len() {
        ms.len() as int
    } else if ends_with(uci_chars(ms[i]), e) && from_written(ms[i], s) {
        i
    } else {
        find_promo(ms, e, s, i + 1)
    }
}

/// Where the SAN writes no from-square, the promotion search is the plain
/// search by the end of the UCI.
proof fn lemma_find_promo_plain(ms: Seq<Movim>, e: Seq<char>, s: Seq<char>, i: int)
    requires
        !san_matches(s),
    ensures
        find_promo(ms, e, s, i) == find_ending(ms, e, i),
    decreases ms.len() - i,
{
    if 0 <= i < ms.len() {
        lemma_find_promo_plain(ms, e, s, i + 1);
    }
}

/// A pawn move to the square named `dest`.
pub open spec fn pawn_to(m: Movim, dest: Seq<char>) -> bool {
    (m.piec() == 1 || m.piec() == 9) && square_name(m.to_sq() as int) == dest
}

/// A capture from the file lettered `f` to the square named `dest`.
pub open spec fn capture_to(m: Movim, f: char, dest: Seq<char>) -> bool {
    m.capt() != 0 && file_char(file_of(m.from_sq() as int)) == f && square_name(m.to_sq() as int) == dest
}

/// A move of the piece `p` to the square named `dest`.
pub open spec fn piece_to(m: Movim, p: int, dest: Seq<char>) -> bool {
    m.piec() == p && square_name(m.to_sq() as int) == dest
}

/// ... that also leaves from the file or the rank written in the SAN.
pub open spec fn piece_to_from(m: Movim, p: int, dest: Seq<char>, l: SanLayout, s: Seq<char>) -> bool {
    &&& piece_to(m, p, dest)
    &&& {
        ||| l.file == 1 && file_char(file_of(m.from_sq() as int)) == s[l.file_at()]
        ||| l.rank == 1 && rank_char(rank_of(m.from_sq() as int)) == s[l.rank_at()]
    }
}

pub open spec fn pawn_to_fn(dest: Seq<char>) -> spec_fn(Movim) -> bool {
    |m: Movim| pawn_to(m, dest)
}

pub open spec fn capture_to_fn(f: char, dest: Seq<char>) -> spec_fn(Movim) -> bool {
    |m: Movim| capture_to(m, f, dest)
}

pub open spec fn piece_to_fn(p: int, dest: Seq<char>) -> spec_fn(Movim) -> bool {
    |m: Movim| piece_to(m, p, dest)
}

pub open spec fn piece_to_from_fn(p: int, dest: Seq<char>, l: SanLayout, s: Seq<char>) -> spec_fn(Movim) -> bool {
    |m: Movim| piece_to_from(m, p, dest, l, s)
}

/// The first move of `ms` from `i` on for which `pred` holds, or the length.
pub open spec fn find_first(ms: Seq<Movim>, pred: spec_fn(Movim) -> bool, i: int) -> int
    decreases ms.len() - i,
{
    if i < 0 || i >= ms.len() {
        ms.len() as int
    } else if pred(ms[i]) {
        i
    } else {
        find_first(ms, pred, i + 1)
    }
}

/// How many of the first `k` moves of `ms` satisfy `pred`.
pub open spec fn count_where(ms: Seq<Movim>, pred: spec_fn(Movim) -> bool, k: int) -> int
    decreases k,
{
    if k <= 0 {
        0
    } else {
        count_where(ms, pred, k - 1) + if pred(ms[k - 1]) { 1int } else { 0int }
    }
}

/// The piece code of a SAN piece letter for the side `side`.
pub open spec fn piece_code(c: char, side: u8) -> int {
    let w: int = if c == 'K' { 2 } else if c == 'N' { 3 } else if c == 'B' { 5 } else if c == 'R' {
        6
    } else if c == 'Q' { 7 } else if c == 'P' { 1 } else { 0 };
    if side == 0 || w == 0 { w } else { w + 8 }
}

/// The promotion letter as the UCI of a SAN with from-square takes it:
/// the character 32 code points above the one written.
pub open spec fn shift_letter(c: char) -> char {
    if c == 'Q' { 'q' } else if c == 'R' { 'r' } else if c == 'B' { 'b' } else if c == 'N' { 'n' }
    else if c == 'q' { '\u{91}' } else if c == 'r' { '\u{92}' } else if c == 'b' { '\u{82}' } else { '\u{8e}' }
}

pub open spec fn san_promo_uci(l: SanLayout, s: Seq<char>) -> Seq<char> {
    if l.promo == 2 {
        seq![shift_letter(s[l.promo_at() + 1])]
    } else if l.promo == 1 {
        seq![shift_letter(s[l.promo_at()])]
    } else {
        seq![]
    }
}

/// The move that the SAN grammar picks among `ms` (`side` to move), as a
/// position in `ms`, or -1: with from-file and from-rank, the move with that
/// UCI; a bare square, the first pawn move there; file and "x", the first
/// capture from that file to the square; a piece letter, the only such
/// piece move to the square, or the first one leaving from the written file
/// or rank.
pub open spec fn grammar_pick(ms: Seq<Movim>, side: u8, s: Seq<char>) -> int {
    let l = san_layout(s);
    let dest = l.square(s);
    let n = ms.len() as int;
    if l.file == 1 && l.rank == 1 {
        let i = find_uci(ms, seq![s[l.file_at()], s[l.rank_at()]] + dest + san_promo_uci(l, s), 0);
        if i < n { i } else { -1 }
    } else if l.piece == 0 && l.file == 0 && l.rank == 0 && l.capture == 0 {
        let i = find_first(ms, pawn_to_fn(dest), 0);
        if i < n { i } else { -1 }
    } else if l.piece == 0 && l.file == 1 && l.rank == 0 && l.capture == 1 {
        let i = find_first(ms, capture_to_fn(s[l.file_at()], dest), 0);
        if i < n { i } else { -1 }
    } else if l.piece == 1 {
        let p = piece_code(s[0], side);
        let cnt = count_where(ms, piece_to_fn(p, dest), n);
        if cnt == 0 {
            -1
        } else if cnt == 1 {
            find_first(ms, piece_to_fn(p, dest), 0)
        } else {
            let i = find_first(ms, piece_to_from_fn(p, dest, l, s), 0);
            if i < n { i } else { -1 }
        }
    } else {
        -1
    }
}

/// The position among the legal moves `ms` of the move that the SAN `s`
/// names, or -1: a castling by its king move; a promotion by the end of its
/// UCI (destination and piece), taken among the moves from the file and
/// rank the SAN writes, if it writes them; else by the SAN grammar.
pub open spec fn san_pick(ms: Seq<Movim>, side: u8, s: Seq<char>) -> int {
    let n = ms.len() as int;
    if castle_short_text(s) || castle_long_text(s) {
        let i = find_uci(ms, castle_uci(side, castle_short_text(s)), 0);
        if i < n { i } else { -1 }
    } else {
        let w = when_promo(s);
        let p = if promo_branch(s) { find_promo(ms, promo_to(w) + promo_minus(w), s, 0) } else { n };
        if p < n { p } else { grammar_pick(ms, side, s) }
    }
}

/// The SAN can be read: a castling, or a promotion text that holds its
/// destination and names a legal move or else follows the grammar, or any
/// other text that follows the grammar.
pub open spec fn san_readable(ms: Seq<Movim>, s: Seq<char>) -> bool {
    &&& is_ascii_text(s)
    &&& {
        ||| castle_short_text(s) || castle_long_text(s)
        ||| {
            &&& promo_branch(s) ==> promo_text_ok(when_promo(s))
            &&& (promo_branch(s) && find_ending(ms, promo_to(when_promo(s)) + promo_minus(when_promo(s)), 0)
                < ms.len()) || san_matches(s)
        }
    }
}


/// The characters `s[a..b]`.
pub fn sub_chars(s: &Vec<char>, a: usize, b: usize) -> (v: Vec<char>)
    requires
        a <= b <= s.len(),
    ensures
        v@ == s@.subrange(a as int, b as int),
{
    let mut v: Vec<char> = Vec::new();
    let mut i = a;
    while i < b
        invariant
            a <= i <= b,
            b <= s.len(),
            v@ == s@.subrange(a as int, i as int),
        decreases b - i,
    {
        v.push(s[i]);
        i = i + 1;
        assert(v@ =~= s@.subrange(a as int, i as int));
    }
    v
}

fn index_of_exec(s: &Vec<char>, c: char, i: usize) -> (r: usize)
    requires
        i <= s.len(),
    ensures
        r == index_of(s@, c, i as int),
        i <= r <= s.len(),
        r < s.len() ==> s@[r as int] == c,
{
    let mut j = i;
    while j < s.len()
        invariant
            i <= j <= s.len(),
            index_of(s@, c, j as int) == index_of(s@, c, i as int),
        decreases s.len() - j,
    {
        if s[j] == c {
            return j;
        }
        j = j + 1;
    }
    j
}

fn is_upper_promo_exec(c: char) -> (r: bool)
    ensures
        r == is_upper_promo(c),
{
    c == 'Q' || c == 'R' || c == 'B' || c == 'N'
}

fn when_promo_exec(s: &Vec<char>) -> (w: Vec<char>)
    ensures
        w@ == when_promo(s@),
{
    let n = s.len();
    if n > 0 && (s[n - 1] == '+' || s[n - 1] == '#') {
        sub_chars(s, 0, n - 1)
    } else if n > 0 && is_upper_promo_exec(s[n - 1]) {
        sub_chars(s, 0, n)
    } else {
        Vec::new()
    }
}

fn lower_promo_exec(c: char) -> (v: Vec<char>)
    ensures
        v@ == lower_promo(c),
{
    let mut v: Vec<char> = Vec::new();
    if c == 'Q' { v.push('q'); } else if c == 'R' { v.push('r'); } else if c == 'B' { v.push('b'); }
    else if c == 'N' { v.push('n'); }
    assert(v@ =~= lower_promo(c));
    v
}

fn promo_minus_exec(w: &Vec<char>) -> (v: Vec<char>)
    requires
        w.len() > 0,
    ensures
        v@ == promo_minus(w@),
{
    let n = w.len();
    let e = index_of_exec(w, '=', 0);
    if e < n {
        let rest = sub_chars(w, e + 1, n);
        assert(rest@ =~= w@.skip(e + 1));
        let e2 = index_of_exec(&rest, '=', 0);
        assert(rest@.take(e2 as int).len() == e2);
        if e2 == 1 {
            assert(rest@.take(1)[0] == rest@[0]);
            lower_promo_exec(rest[0])
        } else {
            Vec::new()
        }
    } else {
        lower_promo_exec(w[n - 1])
    }
}

fn promo_to_exec(w: &Vec<char>) -> (v: Vec<char>)
    requires
        promo_text_ok(w@),
    ensures
        v@ == promo_to(w@),
{
    let n = w.len();
    let e = index_of_exec(w, '=', 0);
    if e < n {
        if n == 4 {
            sub_chars(w, 0, e)
        } else {
            let v = sub_chars(w, e - 2, e);
            assert(v@ =~= w@.take(e as int).skip(e - 2));
            v
        }
    } else if n > 3 {
        sub_chars(w, n - 3, n - 1)
    } else {
        sub_chars(w, 0, 2)
    }
}

fn ends_with_exec(s: &Vec<char>, e: &Vec<char>) -> (r: bool)
    ensures
        r == ends_with(s@, e@),
{
    if e.len() > s.len() {
        return false;
    }
    let off = s.len() - e.len();
    let mut i: usize = 0;
    while i < e.len()
        invariant
            i <= e.len(),
            off + e.len() == s.len(),
            forall|j: int| 0 <= j < i ==> s@[off + j] == e@[j],
        decreases e.len() - i,
    {
        if s[off + i] != e[i] {
            assert(s@.skip(off as int)[i as int] != e@[i as int]);
            return false;
        }
        i = i + 1;
    }
    assert(s@.skip(off as int) =~= e@);
    true
}


/// The legal moves `legals` carry the moves `ms`, with their UCI.
pub open spec fn carries(legals: Seq<LegalMove>, ms: Seq<Movim>) -> bool {
    &&& legals.len() == ms.len()
    &&& forall|i: int| 0 <= i < ms.len() ==> (#[trigger] legals[i]).movim == ms[i] && legals[i].uci@
        == uci_chars(ms[i])
}

/// Whether square `sq` is named `d`.
fn square_is(sq: u32, d: &Vec<char>) -> (r: bool)
    requires
        sq < 64,
        d.len() == 2,
    ensures
        r == (square_name(sq as int) == d@),
{
    let r = file_to_char(files(sq as usize)) == d[0] && rank_to_char(ranks(sq as usize)) == d[1];
    assert(r == (square_name(sq as int) =~= d@));
    r
}

fn find_ending_exec(legals: &Vec<LegalMove>, e: &Vec<char>, Ghost(ms): Ghost<Seq<Movim>>) -> (r: usize)
    requires
        carries(legals@, ms),
    ensures
        r == find_ending(ms, e@, 0),
{
    let mut i: usize = 0;
    while i < legals.len()
        invariant
            carries(legals@, ms),
            i <= legals.len(),
            find_ending(ms, e@, i as int) == find_ending(ms, e@, 0),
        decreases legals.len() - i,
    {
        let u = chars_of(legals[i].uci.as_str());
        if ends_with_exec(&u, e) {
            return i;
        }
        i = i + 1;
    }
    i
}

/// The first legal move whose UCI ends with `e` and that leaves from where
/// the SAN `s` (read in layout `lo`, if it follows the grammar) says.
fn find_promo_exec(legals: &Vec<LegalMove>, e: &Vec<char>, s: &Vec<char>, lo: &Option<SanLayout>,
    Ghost(ms): Ghost<Seq<Movim>>) -> (r: usize)
    requires
        carries(legals@, ms),
        lo.is_some() == san_matches(s@),
        lo.is_some() ==> lo.unwrap() == san_layout(s@),
    ensures
        r == find_promo(ms, e@, s@, 0),
{
    proof {
        if san_matches(s@) {
            lemma_first_layout_fits(s@, 0);
        }
    }
    let mut i: usize = 0;
    while i < legals.len()
        invariant
            carries(legals@, ms),
            lo.is_some() == san_matches(s@),
            lo.is_some() ==> lo.unwrap() == san_layout(s@) && san_layout(s@).fits(s@),
            i <= legals.len(),
            find_promo(ms, e@, s@, i as int) == find_promo(ms, e@, s@, 0),
        decreases legals.len() - i,
    {
        let u = chars_of(legals[i].uci.as_str());
        let m = legals[i].movim;
        proof { m.lemma_masks(); }
        let from = m.get_from() as usize;
        let placed = match lo {
            None => true,
            Some(l) => {
                proof {
                    assert(l.piece <= 1 && l.file <= 1 && l.rank <= 1);
                }
                (l.file != 1 || file_to_char(files(from)) == s[l.piece])
                    && (l.rank != 1 || rank_to_char(ranks(from)) == s[l.piece + l.file])
            },
        };
        assert(placed == from_written(ms[i as int], s@));
        if ends_with_exec(&u, e) && placed {
            return i;
        }
        i = i + 1;
    }
    i
}

fn find_pawn_to_exec(legals: &Vec<LegalMove>, d: &Vec<char>, Ghost(ms): Ghost<Seq<Movim>>) -> (r: usize)
    requires
        carries(legals@, ms),
        d.len() == 2,
    ensures
        r == find_first(ms, pawn_to_fn(d@), 0),
{
    let mut i: usize = 0;
    while i < legals.len()
        invariant
            carries(legals@, ms),
            d.len() == 2,
            i <= legals.len(),
            find_first(ms, pawn_to_fn(d@), i as int) == find_first(ms, pawn_to_fn(d@), 0),
        decreases legals.len() - i,
    {
        let m = legals[i].movim;
        proof { m.lemma_masks(); }
        let p = m.get_piec();
        if (p == 1 || p == 9) && square_is(m.get_to_sq(), d) {
            return i;
        }
        i = i + 1;
    }
    i
}

fn find_capture_to_exec(legals: &Vec<LegalMove>, f: char, d: &Vec<char>, Ghost(ms): Ghost<Seq<Movim>>) -> (r: usize)
    requires
        carries(legals@, ms),
        d.len() == 2,
    ensures
        r == find_first(ms, capture_to_fn(f, d@), 0),
{
    let mut i: usize = 0;
    while i < legals.len()
        invariant
            carries(legals@, ms),
            d.len() == 2,
            i <= legals.len(),
            find_first(ms, capture_to_fn(f, d@), i as int) == find_first(ms, capture_to_fn(f, d@), 0),
        decreases legals.len() - i,
    {
        let m = legals[i].movim;
        proof { m.lemma_masks(); }
        if m.is_capture() && file_to_char(files(m.get_from() as usize)) == f && square_is(m.get_to_sq(), d) {
            return i;
        }
        i = i + 1;
    }
    i
}

/// How many legal moves take the piece `p` to `d`, and the first of them.
fn piece_to_exec(legals: &Vec<LegalMove>, p: u32, d: &Vec<char>, Ghost(ms): Ghost<Seq<Movim>>) -> (r: (usize, usize))
    requires
        carries(legals@, ms),
        d.len() == 2,
    ensures
        r.0 == count_where(ms, piece_to_fn(p as int, d@), ms.len() as int),
        r.1 == find_first(ms, piece_to_fn(p as int, d@), 0),
        r.0 > 0 ==> r.1 < ms.len(),
{
    let mut i: usize = 0;
    let mut count: usize = 0;
    let mut first: usize = legals.len();
    while i < legals.len()
        invariant
            carries(legals@, ms),
            d.len() == 2,
            i <= legals.len(),
            count == count_where(ms, piece_to_fn(p as int, d@), i as int),
            count <= i,
            count == 0 ==> find_first(ms, piece_to_fn(p as int, d@), i as int) == find_first(ms,
                piece_to_fn(p as int, d@), 0),
            count > 0 ==> first == find_first(ms, piece_to_fn(p as int, d@), 0),
            count > 0 ==> first < i,
            count == 0 ==> first == legals.len(),
        decreases legals.len() - i,
    {
        let m = legals[i].movim;
        proof { m.lemma_masks(); }
        if m.get_piec() == p && square_is(m.get_to_sq(), d) {
            if count == 0 {
                first = i;
            }
            count = count + 1;
        }
        i = i + 1;
    }
    (count, first)
}

fn find_piece_to_from_exec(legals: &Vec<LegalMove>, p: u32, d: &Vec<char>, l: &SanLayout, s: &Vec<char>,
    Ghost(ms): Ghost<Seq<Movim>>) -> (r: usize)
    requires
        carries(legals@, ms),
        d.len() == 2,
        l.file == 1 ==> l.file_at() < s.len(),
        l.rank == 1 ==> l.rank_at() < s.len(),
        l.piece <= 1,
        l.file <= 1,
    ensures
        r == find_first(ms, piece_to_from_fn(p as int, d@, *l, s@), 0),
{
    let mut i: usize = 0;
    while i < legals.len()
        invariant
            carries(legals@, ms),
            d.len() == 2,
            l.file == 1 ==> l.file_at() < s.len(),
            l.rank == 1 ==> l.rank_at() < s.len(),
            l.piece <= 1,
            l.file <= 1,
            i <= legals.len(),
            find_first(ms, piece_to_from_fn(p as int, d@, *l, s@), i as int) == find_first(ms,
                piece_to_from_fn(p as int, d@, *l, s@), 0),
        decreases legals.len() - i,
    {
        let m = legals[i].movim;
        proof { m.lemma_masks(); }
        let from = m.get_from() as usize;
        if m.get_piec() == p && square_is(m.get_to_sq(), d) {
            if l.file == 1 && file_to_char(files(from)) == s[l.piece] {
                return i;
            }
            if l.rank == 1 && rank_to_char(ranks(from)) == s[l.piece + l.file] {
                return i;
            }
        }
        i = i + 1;
    }
    i
}


proof fn lemma_first_layout_fits(s: Seq<char>, c: int)
    requires
        0 <= c,
        first_layout(s, c) < 96,
    ensures
        layout_of(first_layout(s, c)).fits(s),
        c <= first_layout(s, c),
    decreases 96 - c,
{
    if c < 96 && !layout_of(c).fits(s) {
        lemma_first_layout_fits(s, c + 1);
    }
}

fn piece_code_exec(c: char, side: u8) -> (r: u32)
    ensures
        r == piece_code(c, side),
{
    let w: u32 = if c == 'K' { 2 } else if c == 'N' { 3 } else if c == 'B' { 5 } else if c == 'R' { 6 }
        else if c == 'Q' { 7 } else if c == 'P' { 1 } else { 0 };
    if side == 0 || w == 0 { w } else { w + 8 }
}

fn shift_letter_exec(c: char) -> (r: char)
    ensures
        r == shift_letter(c),
{
    if c == 'Q' { 'q' } else if c == 'R' { 'r' } else if c == 'B' { 'b' } else if c == 'N' { 'n' }
    else if c == 'q' { '\u{91}' } else if c == 'r' { '\u{92}' } else if c == 'b' { '\u{82}' } else { '\u{8e}' }
}

/// The move the SAN grammar picks (see `grammar_pick`).
fn grammar_pick_exec(legals: &Vec<LegalMove>, side: u8, s: &Vec<char>, Ghost(ms): Ghost<Seq<Movim>>) -> (r: Option<usize>)
    requires
        carries(legals@, ms),
        san_matches(s@),
    ensures
        match r {
            Some(i) => i == grammar_pick(ms, side, s@) && i < ms.len(),
            None => grammar_pick(ms, side, s@) == -1,
        },
{
    proof { lemma_first_layout_fits(s@, 0); }
    let l = match parse_san(s) {
        Some(l) => l,
        None => { return None; },
    };
    let ghost sl = s@;
    let sa = l.piece + l.file + l.rank + l.capture;
    let d = sub_chars(s, sa, sa + 2);
    assert(d@ == l.square(s@));
    let n = legals.len();
    if l.file == 1 && l.rank == 1 {
        let mut u: Vec<char> = Vec::new();
        u.push(s[l.piece]);
        u.push(s[l.piece + 1]);
        crate::strutil::push_all(&mut u, &d);
        let pa = sa + 2;
        if l.promo == 2 {
            u.push(shift_letter_exec(s[pa + 1]));
        } else if l.promo == 1 {
            u.push(shift_letter_exec(s[pa]));
        }
        assert(u@ =~= seq![sl[l.file_at()], sl[l.rank_at()]] + l.square(sl) + san_promo_uci(l, sl));
        let us = string_from_chars(&u);
        let i = find_legal_uci(legals, &us, Ghost(ms));
        if i < n { Some(i) } else { None }
    } else if l.piece == 0 && l.file == 0 && l.rank == 0 && l.capture == 0 {
        let i = find_pawn_to_exec(legals, &d, Ghost(ms));
        if i < n { Some(i) } else { None }
    } else if l.piece == 0 && l.file == 1 && l.rank == 0 && l.capture == 1 {
        let i = find_capture_to_exec(legals, s[0], &d, Ghost(ms));
        if i < n { Some(i) } else { None }
    } else if l.piece == 1 {
        let p = piece_code_exec(s[0], side);
        let (cnt, first) = piece_to_exec(legals, p, &d, Ghost(ms));
        if cnt == 0 {
            None
        } else if cnt == 1 {
            Some(first)
        } else {
            let i = find_piece_to_from_exec(legals, p, &d, &l, s, Ghost(ms));
                if i < n { Some(i) } else { None }
        }
    } else {
        None
    }
}

/// Whether the text is a castling, short or long.
fn castle_text_exec(s: &Vec<char>) -> (r: (bool, bool))
    ensures
        r.0 == castle_short_text(s@),
        r.1 == castle_long_text(s@),
{
    let n = s.len();
    let oo = n >= 3 && s[0] == 'O' && s[1] == '-' && s[2] == 'O';
    let short = oo && (n == 3 || (n == 4 && (s[3] == '+' || s[3] == '#')));
    let long = oo && n >= 5 && s[3] == '-' && s[4] == 'O' && (n == 5 || (n == 6 && (s[5] == '+' || s[5] == '#')));
    proof {
        if short {
            if n == 3 { assert(s@ =~= seq!['O', '-', 'O']); }
            else if s[3] == '+' { assert(s@ =~= seq!['O', '-', 'O', '+']); }
            else { assert(s@ =~= seq!['O', '-', 'O', '#']); }
        }
        if long {
            if n == 5 { assert(s@ =~= seq!['O', '-', 'O', '-', 'O']); }
            else if s[5] == '+' { assert(s@ =~= seq!['O', '-', 'O', '-', 'O', '+']); }
            else { assert(s@ =~= seq!['O', '-', 'O', '-', 'O', '#']); }
        }
    }
    (short, long)
}

/// The position of the move the SAN names among the legal moves (see
/// `san_pick`).
fn san_index(legals: &Vec<LegalMove>, side: u8, s: &Vec<char>, Ghost(ms): Ghost<Seq<Movim>>) -> (r: Option<usize>)
    requires
        carries(legals@, ms),
        san_readable(ms, s@),
    ensures
        match r {
            Some(i) => i == san_pick(ms, side, s@) && i < ms.len(),
            None => san_pick(ms, side, s@) == -1,
        },
{
    let (short, long) = castle_text_exec(s);
    if short || long {
        let mut u: Vec<char> = Vec::new();
        u.push('e');
        if side == 0 { u.push('1'); } else { u.push('8'); }
        if short { u.push('g'); } else { u.push('c'); }
        if side == 0 { u.push('1'); } else { u.push('8'); }
        assert(u@ =~= castle_uci(side, short));
        let us = string_from_chars(&u);
        let i = find_legal_uci(legals, &us, Ghost(ms));
        return if i < legals.len() { Some(i) } else { None };
    }
    let w = when_promo_exec(s);
    let n = w.len();
    if n > 0 && is_upper_promo_exec(w[n - 1]) {
        let mut e = promo_to_exec(&w);
        let mn = promo_minus_exec(&w);
        crate::strutil::push_all(&mut e, &mn);
        let lo = parse_san(s);
        let p = find_promo_exec(legals, &e, s, &lo, Ghost(ms));
        if p < legals.len() {
            return Some(p);
        }
        proof {
            if !san_matches(s@) {
                lemma_find_promo_plain(ms, e@, s@, 0);
            }
        }
    }
    grammar_pick_exec(legals, side, s, Ghost(ms))
}

impl Board {
    /// Plays the legal move named by the SAN `san_str` (see `san_pick`) and
    /// returns it with its UCI and, as SAN, the text given; when no legal
    /// move is named, returns an empty move and leaves the position as it was.
    pub fn make_san_move(&mut self, san_str: &str) -> (r: LegalMove)
        requires
            can_make(*old(self)),
            san_readable(legal_moves(*old(self)), san_str@),
        ensures
            ({
                let legal = legal_moves(*old(self));
                let i = san_pick(legal, old(self).next_move, san_str@);
                if 0 <= i {
                    &&& r.movim == legal[i]
                    &&& r.uci@ == uci_chars(legal[i])
                    &&& r.san@ == san_str@
                    &&& old(self).move_ok(legal[i])
                    &&& played(*old(self), legal[i], *final(self))
                    &&& final(self).undo_ok(legal[i])
                } else {
                    &&& r.movim.move_int == 0
                    &&& r.uci@ == Seq::<char>::empty()
                    &&& r.san@ == Seq::<char>::empty()
                    &&& final(self).wf()
                    &&& final(self).same_state(*old(self))
                }
            }),
    {
        let ghost b0 = *self;
        let s = chars_of(san_str);
        let mut legals = self.get_legals();
        let side = self.next_move;
        let pick = san_index(&legals, side, &s, Ghost(legal_moves(b0)));
        match pick {
            Some(i) => {
                let lm = legals.remove(i);
                self.play_with_san(lm, san_str.to_owned(), Ghost(b0))
            },
            None => LegalMove::new(),
        }
    }
}


pub(crate) fn ascii_exec(s: &Vec<char>) -> (r: bool)
    ensures
        r == is_ascii_text(s@),
{
    let mut i: usize = 0;
    while i < s.len()
        invariant
            i <= s.len(),
            forall|j: int| 0 <= j < i ==> (#[trigger] s@[j] as int) < 128,
        decreases s.len() - i,
    {
        if s[i] >= '\u{80}' {
            assert((s@[i as int] as int) >= 128);
            return false;
        }
        i = i + 1;
    }
    true
}

fn promo_text_ok_exec(w: &Vec<char>) -> (r: bool)
    ensures
        r == promo_text_ok(w@),
{
    let n = w.len();
    let e = index_of_exec(w, '=', 0);
    if e < n { n == 4 || e >= 2 } else { n >= 2 }
}

/// Whether `make_san_move` can read the text against the legal moves
/// `legals` (see `san_readable`).
pub fn san_readable_exec(legals: &Vec<LegalMove>, s: &Vec<char>, Ghost(ms): Ghost<Seq<Movim>>) -> (r: bool)
    requires
        carries(legals@, ms),
    ensures
        r == san_readable(ms, s@),
{
    if !ascii_exec(s) {
        return false;
    }
    let (short, long) = castle_text_exec(s);
    if short || long {
        return true;
    }
    let w = when_promo_exec(s);
    let n = w.len();
    let pb = n > 0 && is_upper_promo_exec(w[n - 1]);
    assert(pb == promo_branch(s@));
    if pb {
        if !promo_text_ok_exec(&w) {
            return false;
        }
        let mut e = promo_to_exec(&w);
        let mn = promo_minus_exec(&w);
        crate::strutil::push_all(&mut e, &mn);
        let p = find_ending_exec(legals, &e, Ghost(ms));
        if p < legals.len() {
            return true;
        }
    }
    parse_san(s).is_some()
}

/// What playing the SAN `s` on `b` leaves, when the game line has room and
/// the text can be read: the move named and the board after it, or an
/// empty move and the same state.
pub open spec fn san_played(b: Board, s: Seq<char>, r: LegalMove, n: Board) -> bool {
    let legal = legal_moves(b);
    let i = san_pick(legal, b.next_move, s);
    if can_make(b) && san_readable(legal, s) && 0 <= i {
        &&& r.movim == legal[i]
        &&& r.uci@ == uci_chars(legal[i])
        &&& r.san@ == s
        &&& played(b, legal[i], n)
    } else {
        &&& r.movim.move_int == 0
        &&& r.uci@ == Seq::<char>::empty()
        &&& r.san@ == Seq::<char>::empty()
        &&& n.wf()
        &&& n.same_state(b)
    }
}

impl Board {
    /// Plays the SAN move `san_str` as `make_san_move` does, when the game
    /// line has room and the text can be read against the legal moves;
    /// otherwise returns an empty move (see `san_played`).
    pub fn make_san_move_checked(&mut self, san_str: &str) -> (r: LegalMove)
        requires
            old(self).wf(),
        ensures
            san_played(*old(self), san_str@, r, *final(self)),
    {
        let ghost b0 = *self;
        if !(self.end_of_search < crate::globs::MAX_GAME_LINE && self.fifty_move < i32::MAX
            && self.full_moves < i32::MAX) {
            return LegalMove::new();
        }
        let s = chars_of(san_str);
        let mut legals = self.get_legals();
        proof { Board::lemma_wf_frame(*self, *self); }
        if !san_readable_exec(&legals, &s, Ghost(legal_moves(b0))) {
            return LegalMove::new();
        }
        let side = self.next_move;
        let pick = san_index(&legals, side, &s, Ghost(legal_moves(b0)));
        match pick {
            Some(i) => {
                let lm = legals.remove(i);
                self.play_with_san(lm, san_str.to_owned(), Ghost(b0))
            },
            None => LegalMove::new(),
        }
    }
}

}
