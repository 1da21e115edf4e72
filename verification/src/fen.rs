use vstd::prelude::*;
use crate::board::Board;
use crate::globs::{real_piece_char, real_piece_name, square_name, push_square_name};
use crate::strutil::{decimal, int_chars, push_decimal, push_int, string_from_chars, chars_of};

verus! {

/// The FEN text of rank `r` from file `f` on, with `e` empty squares not
/// yet written: pieces by letter, runs of empty squares by their count.
pub open spec fn rank_fen(sq: Seq<i32>, r: int, f: int, e: nat) -> Seq<char>
    decreases 9 - f,
{
    if f > 8 || f < 1 {
        if e > 0 { decimal(e) } else { seq![] }
    } else {
        let c = real_piece_char(sq[(r - 1) * 8 + f - 1] as int);
        if c == '*' {
            rank_fen(sq, r, f + 1, e + 1)
        } else {
            (if e > 0 { decimal(e) } else { seq![] }) + seq![c] + rank_fen(sq, r, f + 1, 0)
        }
    }
}

/// The placement field of FEN: ranks 8 down to 1, separated by '/'.
pub open spec fn placement_fen(sq: Seq<i32>) -> Seq<char> {
    rank_fen(sq, 8, 1, 0) + seq!['/'] + rank_fen(sq, 7, 1, 0) + seq!['/'] + rank_fen(sq, 6, 1, 0) + seq!['/']
        + rank_fen(sq, 5, 1, 0) + seq!['/'] + rank_fen(sq, 4, 1, 0) + seq!['/'] + rank_fen(sq, 3, 1, 0)
        + seq!['/'] + rank_fen(sq, 2, 1, 0) + seq!['/'] + rank_fen(sq, 1, 1, 0)
}

/// The castling field: "K", "Q", "KQ" for white's rights 1, 2, 3, the same
/// in lower case for black's, "-" when neither has any.
pub open spec fn castle_fen(cw: u8, cb: u8) -> Seq<char> {
    (if cw == 1 { seq!['K'] } else if cw == 2 { seq!['Q'] } else if cw == 3 { seq!['K', 'Q'] } else { seq![] })
        + (if cb == 1 { seq!['k'] } else if cb == 2 { seq!['q'] } else if cb == 3 { seq!['k', 'q'] } else { seq![] })
        + (if cw == 0 && cb == 0 { seq!['-'] } else { seq![] })
}

/// The en-passant field: "-" or the square.
pub open spec fn ep_fen(ep: i32) -> Seq<char> {
    if ep == 0 { seq!['-'] } else { square_name(ep as int) }
}

/// The full FEN of the position.
pub open spec fn fen_text(b: Board) -> Seq<char> {
    placement_fen(b.square@) + (if b.next_move == 0 { seq![' ', 'w', ' '] } else { seq![' ', 'b', ' '] })
        + castle_fen(b.castle_white, b.castle_black) + seq![' '] + ep_fen(b.ep_square) + seq![' ']
        + int_chars(b.fifty_move as int) + seq![' '] + int_chars(b.full_moves as int)
}

/// Appends the FEN text of rank `r`.
fn push_rank_fen(v: &mut Vec<char>, sq: &[i32; 64], r: usize)
    requires
        1 <= r <= 8,
    ensures
        final(v)@ == old(v)@ + rank_fen(sq@, r as int, 1, 0),
{
    let ghost base = v@;
    let mut empties: u64 = 0;
    let mut file: usize = 1;
    while file <= 8
        invariant
            1 <= r <= 8,
            1 <= file <= 9,
            empties < file,
            base + rank_fen(sq@, r as int, 1, 0) == v@ + rank_fen(sq@, r as int, file as int, empties as nat),
        decreases 9 - file,
    {
        let c = real_piece_name(sq[(r - 1) * 8 + file - 1]);
        if c == '*' {
            empties = empties + 1;
        } else {
            let ghost before = v@;
            let ghost e0 = empties;
            if empties != 0 {
                push_decimal(v, empties);
            }
            v.push(c);
            empties = 0;
            proof {
                assert(v@ + rank_fen(sq@, r as int, file as int + 1, 0) =~= before + rank_fen(sq@, r as int,
                    file as int, e0 as nat));
            }
        }
        file = file + 1;
    }
    if empties != 0 {
        push_decimal(v, empties);
    }
    assert(v@ =~= base + rank_fen(sq@, r as int, 1, 0));
}


fn push_placement(v: &mut Vec<char>, sq: &[i32; 64])
    ensures
        final(v)@ == old(v)@ + placement_fen(sq@),
{
    let ghost base = v@;
    push_rank_fen(v, sq, 8);
    v.push('/');
    push_rank_fen(v, sq, 7);
    v.push('/');
    push_rank_fen(v, sq, 6);
    v.push('/');
    push_rank_fen(v, sq, 5);
    v.push('/');
    push_rank_fen(v, sq, 4);
    v.push('/');
    push_rank_fen(v, sq, 3);
    v.push('/');
    push_rank_fen(v, sq, 2);
    v.push('/');
    push_rank_fen(v, sq, 1);
    assert(v@ =~= base + placement_fen(sq@));
}

fn push_castle_fen(v: &mut Vec<char>, cw: u8, cb: u8)
    ensures
        final(v)@ == old(v)@ + castle_fen(cw, cb),
{
    let ghost q = v@;
    if cw == 1 { v.push('K'); } else if cw == 2 { v.push('Q'); } else if cw == 3 { v.push('K'); v.push('Q'); }
    if cb == 1 { v.push('k'); } else if cb == 2 { v.push('q'); } else if cb == 3 { v.push('k'); v.push('q'); }
    if cw == 0 && cb == 0 { v.push('-'); }
    assert(v@ =~= q + castle_fen(cw, cb));
}

fn push_ep_fen(v: &mut Vec<char>, ep: i32)
    requires
        0 <= ep < 64,
    ensures
        final(v)@ == old(v)@ + ep_fen(ep),
{
    let ghost r = v@;
    if ep == 0 {
        v.push('-');
    } else {
        push_square_name(v, ep as usize);
    }
    assert(v@ =~= r + ep_fen(ep));
}

/// The FEN of a position given by its fields.
fn fen_of(sq: &[i32; 64], next: u8, cw: u8, cb: u8, ep: i32, fifty: i32, full: i32) -> (v: Vec<char>)
    requires
        0 <= ep < 64,
    ensures
        v@ == placement_fen(sq@) + (if next == 0 { seq![' ', 'w', ' '] } else { seq![' ', 'b', ' '] })
            + castle_fen(cw, cb) + seq![' '] + ep_fen(ep) + seq![' '] + int_chars(fifty as int) + seq![' ']
            + int_chars(full as int),
{
    let mut v: Vec<char> = Vec::new();
    push_placement(&mut v, sq);
    if next == 0 {
        v.push(' '); v.push('w'); v.push(' ');
    } else {
        v.push(' '); v.push('b'); v.push(' ');
    }
    push_castle_fen(&mut v, cw, cb);
    v.push(' ');
    push_ep_fen(&mut v, ep);
    v.push(' ');
    push_int(&mut v, fifty);
    v.push(' ');
    push_int(&mut v, full);
    proof {
        let w3 = if next == 0 { seq![' ', 'w', ' '] } else { seq![' ', 'b', ' '] };
        assert(v@ =~= placement_fen(sq@) + w3 + castle_fen(cw, cb) + seq![' '] + ep_fen(ep) + seq![' ']
            + int_chars(fifty as int) + seq![' '] + int_chars(full as int));
    }
    v
}

impl Board {
    /// The position in FEN.
    pub fn get_fen_position(&self) -> (s: String)
        requires
            self.wf(),
        ensures
            s@ == fen_text(*self),
    {
        let v = fen_of(&self.square, self.next_move, self.castle_white, self.castle_black, self.ep_square,
            self.fifty_move, self.full_moves);
        string_from_chars(&v)
    }

    /// The placement field of the position's FEN.
    pub fn get_fen_truncated(&self) -> (s: String)
        ensures
            s@ == placement_fen(self.square@),
    {
        let mut v: Vec<char> = Vec::new();
        push_placement(&mut v, &self.square);
        string_from_chars(&v)
    }
}


/// White space as `char::is_whitespace` has it (the Unicode White_Space set).
pub open spec fn is_ws(c: char) -> bool {
    ||| '\u{9}' <= c <= '\u{d}'
    ||| c == ' ' || c == '\u{85}' || c == '\u{a0}' || c == '\u{1680}'
    ||| '\u{2000}' <= c <= '\u{200a}'
    ||| c == '\u{2028}' || c == '\u{2029}' || c == '\u{202f}' || c == '\u{205f}' || c == '\u{3000}'
}

fn is_ws_exec(c: char) -> (r: bool)
    ensures
        r == is_ws(c),
{
    ('\u{9}' <= c && c <= '\u{d}') || c == ' ' || c == '\u{85}' || c == '\u{a0}' || c == '\u{1680}'
        || ('\u{2000}' <= c && c <= '\u{200a}') || c == '\u{2028}' || c == '\u{2029}' || c == '\u{202f}'
        || c == '\u{205f}' || c == '\u{3000}'
}

/// The length of the word at the start of `s`.
pub open spec fn word_len(s: Seq<char>) -> int
    decreases s.len(),
{
    if s.len() == 0 || is_ws(s[0]) { 0 } else { 1 + word_len(s.skip(1)) }
}

pub proof fn lemma_word_len(s: Seq<char>)
    ensures
        0 <= word_len(s) <= s.len(),
        s.len() > 0 && !is_ws(s[0]) ==> word_len(s) >= 1,
    decreases s.len(),
{
    if s.len() > 0 && !is_ws(s[0]) {
        lemma_word_len(s.skip(1));
    }
}

/// The words of `s`, the maximal runs of characters that are not white
/// space (what `split_whitespace` gives).
pub open spec fn words(s: Seq<char>) -> Seq<Seq<char>>
    decreases s.len(),
{
    if s.len() == 0 {
        seq![]
    } else if is_ws(s[0]) {
        words(s.skip(1))
    } else {
        let k = word_len(s);
        proof { lemma_word_len(s); }
        seq![s.take(k)] + words(s.skip(k))
    }
}

/// A word followed by white space or nothing.
pub(crate) proof fn lemma_words_word(w: Seq<char>, r: Seq<char>)
    requires
        w.len() > 0,
        forall|i: int| 0 <= i < w.len() ==> !is_ws(#[trigger] w[i]),
        r.len() == 0 || is_ws(r[0]),
    ensures
        words(w + r) == seq![w] + words(r),
{
    lemma_word_len_prefix(w, r);
    assert((w + r).take(w.len() as int) =~= w);
    assert((w + r).skip(w.len() as int) =~= r);
}

proof fn lemma_word_len_prefix(w: Seq<char>, r: Seq<char>)
    requires
        forall|i: int| 0 <= i < w.len() ==> !is_ws(#[trigger] w[i]),
        r.len() == 0 || is_ws(r[0]),
    ensures
        word_len(w + r) == w.len(),
    decreases w.len(),
{
    if w.len() > 0 {
        assert((w + r).skip(1) =~= w.skip(1) + r);
        lemma_word_len_prefix(w.skip(1), r);
    } else {
        assert(w + r =~= r);
    }
}

/// Splits a text into its words.
pub fn split_words(s: &Vec<char>) -> (ws: Vec<Vec<char>>)
    ensures
        ws.len() == words(s@).len(),
        forall|j: int| 0 <= j < ws.len() ==> (#[trigger] ws[j])@ == words(s@)[j],
{
    let mut ws: Vec<Vec<char>> = Vec::new();
    let mut cur: Vec<char> = Vec::new();
    let ghost mut acc: Seq<Seq<char>> = seq![];
    let mut i: usize = 0;
    assert(cur@ + s@.skip(0) =~= s@);
    assert(acc + words(s@) =~= words(s@));
    while i < s.len()
        invariant
            i <= s.len(),
            ws.len() == acc.len(),
            forall|j: int| 0 <= j < ws.len() ==> (#[trigger] ws[j])@ == acc[j],
            forall|j: int| 0 <= j < cur.len() ==> !is_ws(#[trigger] cur[j]),
            words(s@) == acc + words(cur@ + s@.skip(i as int)),
        decreases s.len() - i,
    {
        let c = s[i];
        let ghost rest = s@.skip(i as int);
        assert(rest[0] == c);
        assert(rest.skip(1) =~= s@.skip(i as int + 1));
        if is_ws_exec(c) {
            if cur.len() > 0 {
                proof {
                    lemma_words_word(cur@, rest);
                    assert(words(rest) == words(rest.skip(1)));
                    acc = acc + seq![cur@];
                }
                ws.push(cur);
                cur = Vec::new();
                assert(cur@ + s@.skip(i as int + 1) =~= s@.skip(i as int + 1));
            } else {
                assert(cur@ + rest =~= rest);
                assert(cur@ + s@.skip(i as int + 1) =~= s@.skip(i as int + 1));
            }
        } else {
            assert(cur@ + rest =~= cur@.push(c) + s@.skip(i as int + 1));
            cur.push(c);
        }
        i = i + 1;
    }
    assert(s@.skip(i as int) =~= seq![]);
    if cur.len() > 0 {
        proof {
            lemma_words_word(cur@, seq![]);
            assert(cur@ + seq![] =~= cur@);
            assert(words(seq![]) =~= seq![]);
            acc = acc + seq![cur@];
        }
        ws.push(cur);
    } else {
        assert(cur@ + s@.skip(i as int) =~= seq![]);
    }
    assert(words(s@) =~= acc);
    ws
}


/// The piece code of a FEN piece letter; 0 for other characters.
pub open spec fn fen_code(c: char) -> i32 {
    if c == 'P' { 1 } else if c == 'N' { 3 } else if c == 'B' { 5 } else if c == 'R' { 6 }
    else if c == 'Q' { 7 } else if c == 'K' { 2 } else if c == 'p' { 9 } else if c == 'n' { 11 }
    else if c == 'b' { 13 } else if c == 'r' { 14 } else if c == 'q' { 15 } else if c == 'k' { 10 }
    else { 0 }
}

fn fen_code_exec(c: char) -> (r: i32)
    ensures
        r == fen_code(c),
{
    if c == 'P' { 1 } else if c == 'N' { 3 } else if c == 'B' { 5 } else if c == 'R' { 6 }
    else if c == 'Q' { 7 } else if c == 'K' { 2 } else if c == 'p' { 9 } else if c == 'n' { 11 }
    else if c == 'b' { 13 } else if c == 'r' { 14 } else if c == 'q' { 15 } else if c == 'k' { 10 }
    else { 0 }
}

/// Reading the placement field `p` from character `i` on, with `counter`
/// squares passed, at `file` and `rank`, never places a piece off the board:
/// a digit 1..8 skips squares, '/' starts the next rank down, a piece
/// letter or '?' takes a square, other characters are passed over; reading
/// stops after 64 squares.
pub open spec fn place_ok(p: Seq<char>, i: int, counter: int, file: int, rank: int) -> bool
    decreases p.len() - i,
{
    if i < 0 || counter >= 64 || i >= p.len() {
        true
    } else {
        let c = p[i];
        if '1' <= c <= '8' {
            let d = c as int - '0' as int;
            place_ok(p, i + 1, counter + d, file + d, rank)
        } else if c == '/' {
            place_ok(p, i + 1, counter, 1, rank - 1)
        } else if fen_code(c) != 0 {
            1 <= file <= 8 && 1 <= rank <= 8 && place_ok(p, i + 1, counter + 1, file + 1, rank)
        } else if c == '?' {
            place_ok(p, i + 1, counter + 1, file + 1, rank)
        } else {
            place_ok(p, i + 1, counter, file, rank)
        }
    }
}

/// The squares after reading the placement field from character `i` on.
pub open spec fn place_from(p: Seq<char>, i: int, counter: int, file: int, rank: int, sq: Seq<i32>) -> Seq<i32>
    decreases p.len() - i,
{
    if i < 0 || counter >= 64 || i >= p.len() {
        sq
    } else {
        let c = p[i];
        if '1' <= c <= '8' {
            let d = c as int - '0' as int;
            place_from(p, i + 1, counter + d, file + d, rank, sq)
        } else if c == '/' {
            place_from(p, i + 1, counter, 1, rank - 1, sq)
        } else if fen_code(c) != 0 {
            place_from(p, i + 1, counter + 1, file + 1, rank, sq.update((rank - 1) * 8 + file - 1, fen_code(c)))
        } else if c == '?' {
            place_from(p, i + 1, counter + 1, file + 1, rank, sq)
        } else {
            place_from(p, i + 1, counter, file, rank, sq)
        }
    }
}

/// 64 empty squares.
pub open spec fn empty_squares() -> Seq<i32> {
    Seq::new(64, |i: int| 0i32)
}

/// The squares of a placement field.
pub open spec fn placement_squares(p: Seq<char>) -> Seq<i32> {
    place_from(p, 0, 0, 1, 8, empty_squares())
}

/// Reads the placement field of a FEN into piece codes.
fn read_placement(p: &Vec<char>) -> (v: [i32; 64])
    requires
        place_ok(p@, 0, 0, 1, 8),
    ensures
        v@ == placement_squares(p@),
        forall|j: int| 0 <= j < 64 ==> crate::globs::valid_code(#[trigger] v@[j] as int),
{
    let mut v: [i32; 64] = [0i32; 64];
    assert(v@ =~= empty_squares());
    let mut counter: i64 = 0;
    let mut file: i64 = 1;
    let mut rank: i64 = 8;
    let ghost mut srank: int = 8;
    let mut i: usize = 0;
    while counter < 64 && i < p.len()
        invariant
            i <= p.len(),
            0 <= counter,
            1 <= file <= counter + 1,
            counter < 64 + 8,
            srank <= 8,
            rank == (if srank < -1 { -1 } else { srank }),
            place_ok(p@, i as int, counter as int, file as int, srank),
            place_from(p@, i as int, counter as int, file as int, srank, v@) == placement_squares(p@),
            forall|j: int| 0 <= j < 64 ==> crate::globs::valid_code(#[trigger] v@[j] as int),
        decreases p.len() - i,
    {
        let c = p[i];
        if '1' <= c && c <= '8' {
            let d: i64 = if c == '1' { 1 } else if c == '2' { 2 } else if c == '3' { 3 } else if c == '4' { 4 }
                else if c == '5' { 5 } else if c == '6' { 6 } else if c == '7' { 7 } else { 8 };
            assert(d == c as int - '0' as int);
            file = file + d;
            counter = counter + d;
        } else if c == '/' {
            if rank > -1 {
                rank = rank - 1;
            }
            proof { srank = srank - 1; }
            file = 1;
        } else {
            let code = fen_code_exec(c);
            if code != 0 {
                let idx = ((rank - 1) * 8 + file - 1) as usize;
                v[idx] = code;
                file = file + 1;
                counter = counter + 1;
            } else if c == '?' {
                file = file + 1;
                counter = counter + 1;
            }
        }
        i = i + 1;
    }
    v
}


pub open spec fn is_digit(c: char) -> bool {
    '0' <= c <= '9'
}

/// The value of a run of decimal digits.
pub open spec fn digits_value(s: Seq<char>) -> int
    decreases s.len(),
{
    if s.len() == 0 { 0 } else { digits_value(s.drop_last()) * 10 + (s.last() as int - '0' as int) }
}

/// The text after an optional sign.
pub open spec fn unsigned_part(s: Seq<char>) -> Seq<char> {
    if s.len() > 0 && (s[0] == '-' || s[0] == '+') { s.skip(1) } else { s }
}

pub open spec fn all_digits(s: Seq<char>) -> bool {
    forall|i: int| 0 <= i < s.len() ==> is_digit(#[trigger] s[i])
}

/// What `str::parse::<i32>` gives: an optional sign and at least one
/// digit, nothing else, and a value that fits.
pub open spec fn parse_i32(s: Seq<char>) -> Option<i32> {
    let neg = s.len() > 0 && s[0] == '-';
    let body = unsigned_part(s);
    let v = if neg { -digits_value(body) } else { digits_value(body) };
    if body.len() == 0 || !all_digits(body) {
        None
    } else if i32::MIN <= v <= i32::MAX {
        Some(v as i32)
    } else {
        None
    }
}

proof fn lemma_digits_value_nonneg(s: Seq<char>)
    requires
        forall|i: int| 0 <= i < s.len() ==> is_digit(#[trigger] s[i]),
    ensures
        digits_value(s) >= 0,
        s.len() > 0 ==> digits_value(s) >= digits_value(s.drop_last()),
    decreases s.len(),
{
    if s.len() > 0 {
        assert(is_digit(s[s.len() - 1]));
        lemma_digits_value_nonneg(s.drop_last());
    }
}

proof fn lemma_digits_value_mono(s: Seq<char>, k: int)
    requires
        forall|i: int| 0 <= i < s.len() ==> is_digit(#[trigger] s[i]),
        0 <= k <= s.len(),
    ensures
        digits_value(s.take(k)) <= digits_value(s),
    decreases s.len() - k,
{
    if k < s.len() {
        assert(s.drop_last().take(k) =~= s.take(k));
        lemma_digits_value_mono(s.drop_last(), k);
        lemma_digits_value_nonneg(s);
    } else {
        assert(s.take(k) =~= s);
    }
}

/// Parses a decimal `i32` as `str::parse` does.
pub fn parse_i32_exec(s: &Vec<char>) -> (r: Option<i32>)
    ensures
        r == parse_i32(s@),
{
    let n = s.len();
    let neg = n > 0 && s[0] == '-';
    let start: usize = if n > 0 && (s[0] == '-' || s[0] == '+') { 1 } else { 0 };
    let ghost body = unsigned_part(s@);
    assert(body =~= s@.skip(start as int));
    if start == n {
        return None;
    }
    let mut acc: i64 = 0;
    let mut i = start;
    while i < n
        invariant
            start <= i <= n,
            n == s.len(),
            start <= 1,
            neg == (n > 0 && s@[0] == '-'),
            body == s@.skip(start as int),
            body == unsigned_part(s@),
            forall|j: int| 0 <= j < i - start ==> is_digit(#[trigger] body[j]),
            acc == digits_value(body.take(i - start)),
            0 <= acc <= 0x8000_0000,
        decreases n - i,
    {
        let c = s[i];
        if !('0' <= c && c <= '9') {
            assert(!is_digit(body[i - start]));
            assert(!all_digits(body));
            return None;
        }
        let d: i64 = (c as u32 - '0' as u32) as i64;
        assert(body.take(i - start + 1).drop_last() =~= body.take(i - start));
        acc = acc * 10 + d;
        i = i + 1;
        assert(acc == digits_value(body.take(i - start)));
        if acc > 0x8000_0000 {
            proof {
                if all_digits(body) {
                    lemma_digits_value_mono(body, i - start);
                    assert(digits_value(body) > 0x8000_0000);
                }
            }
            return None;
        }
    }
    assert(body.take(n - start) =~= body);
    if neg {
        Some((-acc) as i32)
    } else if acc <= 0x7fff_ffff {
        Some(acc as i32)
    } else {
        None
    }
}


/// The en-passant square of a FEN field: 0 for "-", else computed from the
/// file letter and the rank digit.
pub open spec fn ep_value(f: Seq<char>) -> int {
    if f == seq!['-'] { 0 } else { (f[0] as int - 96) + 8 * (f[1] as int - 48) - 9 }
}

/// The en-passant field can be read, and names a square.
pub open spec fn ep_ok(f: Seq<char>) -> bool {
    ||| f == seq!['-']
    ||| f.len() >= 2 && f[0] as int >= 96 && f[1] as int >= 48 && 0 <= ep_value(f) < 64
}

/// The castling rights in a FEN field: 1 for the short letter, 2 for the long.
pub open spec fn castle_rights(f: Seq<char>, short: char, long: char) -> int {
    (if f.contains(short) { 1int } else { 0int }) + (if f.contains(long) { 2int } else { 0int })
}

/// A FEN that `setup_fen` reads: six fields or more, a placement that stays
/// on the board, an en-passant field that names a square, and two numbers.
pub open spec fn fen_ok(s: Seq<char>) -> bool {
    let w = words(s);
    &&& w.len() >= 6
    &&& place_ok(w[0], 0, 0, 1, 8)
    &&& ep_ok(w[3])
    &&& parse_i32(w[4]) is Some
    &&& parse_i32(w[5]) is Some
}

fn contains_char(v: &Vec<char>, c: char) -> (r: bool)
    ensures
        r == v@.contains(c),
{
    let mut i: usize = 0;
    while i < v.len()
        invariant
            i <= v.len(),
            forall|j: int| 0 <= j < i ==> v@[j] != c,
        decreases v.len() - i,
    {
        if v[i] == c {
            assert(v@[i as int] == c);
            return true;
        }
        i = i + 1;
    }
    false
}

impl Board {
    /// Sets the position up from a FEN: placement, side to move ("b" for
    /// black, anything else white), castling rights, en-passant square and
    /// the two clocks.  The buffers and the game line are kept.
    pub fn setup_fen(&mut self, new_fen: String)
        requires
            old(self).wf(),
            fen_ok(new_fen@),
        ensures
            ({
                let w = words(new_fen@);
                &&& final(self).wf()
                &&& final(self).square@ == placement_squares(w[0])
                &&& final(self).next_move == (if w[1] == seq!['b'] { 1u8 } else { 0u8 })
                &&& final(self).castle_white == castle_rights(w[2], 'K', 'Q')
                &&& final(self).castle_black == castle_rights(w[2], 'k', 'q')
                &&& final(self).ep_square == ep_value(w[3])
                &&& final(self).fifty_move == parse_i32(w[4])->0
                &&& final(self).full_moves == parse_i32(w[5])->0
            }),
            final(self).view_rotated == old(self).view_rotated,
            final(self).move_buffer@ == old(self).move_buffer@,
            final(self).move_buf_len@ == old(self).move_buf_len@,
            final(self).end_of_game == old(self).end_of_game,
            final(self).end_of_search == old(self).end_of_search,
            final(self).game_line@ == old(self).game_line@,
            final(self).tables == old(self).tables,
    {
        let text = chars_of(new_fen.as_str());
        let fen_parts = split_words(&text);
        let ghost w = words(new_fen@);
        let v_square = read_placement(&fen_parts[0]);
        let turn = &fen_parts[1];
        let next: u8 = if turn.len() == 1 && turn[0] == 'b' { 1 } else { 0 };
        assert(next == (if w[1] == seq!['b'] { 1u8 } else { 0u8 })) by {
            if turn.len() == 1 && turn[0] == 'b' { assert(w[1] =~= seq!['b']); }
        }
        let castles = &fen_parts[2];
        let mut white_castle: i32 = 0;
        let mut black_castle: i32 = 0;
        if contains_char(castles, 'K') { white_castle = white_castle + 1; }
        if contains_char(castles, 'Q') { white_castle = white_castle + 2; }
        if contains_char(castles, 'k') { black_castle = black_castle + 1; }
        if contains_char(castles, 'q') { black_castle = black_castle + 2; }
        let epf = &fen_parts[3];
        let ep_sq: i32 = if epf.len() == 1 && epf[0] == '-' {
            assert(epf@ =~= seq!['-']);
            0
        } else {
            assert(epf@ != seq!['-']);
            let first = (epf[0] as u32 - 96) as i64;
            let second = (epf[1] as u32 - 48) as i64;
            (first + 8 * second - 9) as i32
        };
        let fifty = match parse_i32_exec(&fen_parts[4]) { Some(x) => x, None => 0 };
        let full = match parse_i32_exec(&fen_parts[5]) { Some(x) => x, None => 0 };
        self.init_from_squares(v_square, next, fifty, full, white_castle, black_castle, ep_sq);
    }
}


/// Whether the placement field stays on the board (see `place_ok`).
fn place_ok_exec(p: &Vec<char>) -> (r: bool)
    ensures
        r == place_ok(p@, 0, 0, 1, 8),
{
    let mut counter: i64 = 0;
    let mut file: i64 = 1;
    let mut rank: i64 = 8;
    let ghost mut srank: int = 8;
    let mut i: usize = 0;
    while counter < 64 && i < p.len()
        invariant
            i <= p.len(),
            0 <= counter,
            1 <= file <= counter + 1,
            counter < 64 + 8,
            srank <= 8,
            rank == (if srank < -1 { -1 } else { srank }),
            place_ok(p@, i as int, counter as int, file as int, srank) == place_ok(p@, 0, 0, 1, 8),
        decreases p.len() - i,
    {
        let c = p[i];
        if '1' <= c && c <= '8' {
            let d: i64 = if c == '1' { 1 } else if c == '2' { 2 } else if c == '3' { 3 } else if c == '4' { 4 }
                else if c == '5' { 5 } else if c == '6' { 6 } else if c == '7' { 7 } else { 8 };
            assert(d == c as int - '0' as int);
            file = file + d;
            counter = counter + d;
        } else if c == '/' {
            if rank > -1 {
                rank = rank - 1;
            }
            proof { srank = srank - 1; }
            file = 1;
        } else {
            let code = fen_code_exec(c);
            if code != 0 {
                if !(1 <= file && file <= 8 && 1 <= rank && rank <= 8) {
                    return false;
                }
                file = file + 1;
                counter = counter + 1;
            } else if c == '?' {
                file = file + 1;
                counter = counter + 1;
            }
        }
        i = i + 1;
    }
    true
}

/// From this character on, a file letter puts the en-passant square past
/// the board whatever the rank digit.
const FILE_CHAR_LIMIT: char = '\u{a9}';

/// Whether a FEN can be read by `setup_fen` (see `fen_ok`).
pub fn fen_valid(s: &str) -> (r: bool)
    ensures
        r == fen_ok(s@),
{
    let text = chars_of(s);
    let w = split_words(&text);
    if w.len() < 6 {
        return false;
    }
    if !place_ok_exec(&w[0]) {
        return false;
    }
    let ep = &w[3];
    let ep_good = if ep.len() == 1 && ep[0] == '-' {
        assert(ep@ =~= seq!['-']);
        true
    } else {
        assert(ep@ != seq!['-']) by {
            if ep@ == seq!['-'] { assert(ep@.len() == 1 && ep@[0] == '-'); }
        }
        if ep.len() >= 2 && '`' <= ep[0] && ep[0] < FILE_CHAR_LIMIT && '0' <= ep[1] && ep[1] <= '9' {
            let a = ep[0] as u32;
            let b = ep[1] as u32;
            let v: i64 = (a as i64 - 96) + 8 * (b as i64 - 48) - 9;
            assert(v == ep_value(ep@));
            0 <= v && v < 64
        } else {
            false
        }
    };
    assert(ep_good == ep_ok(w[3]@));
    if !ep_good {
        return false;
    }
    parse_i32_exec(&w[4]).is_some() && parse_i32_exec(&w[5]).is_some()
}

}
