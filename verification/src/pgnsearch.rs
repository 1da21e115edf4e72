use vstd::prelude::*;
use crate::board::{Board, lemma_pos_after_unique};
use crate::legalmoves::{legal_moves, played, can_make};
use crate::sanmove::{san_pick, san_readable, san_played};
use crate::displaymove::lemma_legal_congruent;
use crate::fen::{fen_ok, words, placement_squares, castle_rights, ep_value, parse_i32, is_digit, all_digits,
    digits_value};
use crate::pgntext::{pieces, split_chars, usize_digits};
use crate::strutil::{chars_of, string_from_chars};
use crate::globs::DEFAULT_POSITION;

verus! {

// Searching the main line of a game, given as normalized move text, for a
// position, a pattern of pieces or a material balance.

/// The text marks the end of the game.
pub open spec fn is_end_marker(t: Seq<char>) -> bool {
    t == "*"@ || t == "1-0"@ || t == "0-1"@ || t == "1/2-1/2"@
}

/// The text is made of dots only.
pub open spec fn all_dots(t: Seq<char>) -> bool {
    t.len() > 0 && forall|i: int| 0 <= i < t.len() ==> t[i] == '.'
}

/// A text that the move reader passes over: a result, a NAG, a move number.
pub open spec fn passed_over(t: Seq<char>) -> bool {
    ||| is_end_marker(t)
    ||| t.len() > 0 && t[0] == '$'
    ||| t.len() > 0 && '1' <= t[0] <= '9'
    ||| all_dots(t)
}

/// The characters a SAN move starts with.
pub open spec fn san_letter(c: char) -> bool {
    ||| 'a' <= c <= 'h'
    ||| c == 'R' || c == 'B' || c == 'N' || c == 'Q' || c == 'K' || c == 'O' || c == '0'
}

pub open spec fn is_san_token(t: Seq<char>) -> bool {
    t.len() > 0 && san_letter(t[0])
}

/// The first `}` from `i` on; -1 when there is none.
pub open spec fn close_brace(ts: Seq<Seq<char>>, i: int) -> int
    decreases ts.len() - i,
{
    if i < 0 || i >= ts.len() {
        -1
    } else if ts[i] == seq!['}'] {
        i
    } else {
        close_brace(ts, i + 1)
    }
}

/// Where the variations open at `depth` close, counting `(` and `)` from
/// `i` on; -1 when they do not.
pub open spec fn var_close(ts: Seq<Seq<char>>, i: int, depth: int) -> int
    decreases ts.len() - i,
{
    if i < 0 || i >= ts.len() {
        -1
    } else {
        let d = depth - (if ts[i] == seq![')'] { 1int } else { 0int }) + (if ts[i] == seq!['('] { 1int } else {
            0int
        });
        if d == 0 { i } else { var_close(ts, i + 1, d) }
    }
}

pub proof fn lemma_close_brace(ts: Seq<Seq<char>>, i: int)
    requires
        0 <= i,
    ensures
        close_brace(ts, i) == -1 || (i <= close_brace(ts, i) < ts.len() && ts[close_brace(ts, i)] == seq!['}']),
        forall|j: int| i <= j < ts.len() && (close_brace(ts, i) == -1 || j < close_brace(ts, i)) ==> ts[j]
            != seq!['}'],
    decreases ts.len() - i,
{
    if i < ts.len() && ts[i] != seq!['}'] {
        lemma_close_brace(ts, i + 1);
    }
}

pub proof fn lemma_var_close(ts: Seq<Seq<char>>, i: int, depth: int)
    requires
        0 <= i,
    ensures
        var_close(ts, i, depth) == -1 || i <= var_close(ts, i, depth) < ts.len(),
    decreases ts.len() - i,
{
    if i < ts.len() {
        let d = depth - (if ts[i] == seq![')'] { 1int } else { 0int }) + (if ts[i] == seq!['('] { 1int } else {
            0int
        });
        if d != 0 {
            lemma_var_close(ts, i + 1, d);
        }
    }
}

/// The move text handed to the board: a castling written with zeros (and,
/// when `all_forms`, with letters or a check mark) becomes "O-O" or "O-O-O".
pub open spec fn castle_form(t: Seq<char>, all_forms: bool) -> Seq<char> {
    if t == "0-0"@ || (all_forms && (t == "0-0+"@ || t == "O-O"@ || t == "O-O+"@)) {
        "O-O"@
    } else if t == "0-0-0"@ || (all_forms && (t == "0-0-0+"@ || t == "O-O-O"@ || t == "O-O-O+"@)) {
        "O-O-O"@
    } else {
        t
    }
}

/// The board after the SAN move `s`, when the game line has room, the text
/// can be read and names a legal move.
pub open spec fn san_step(b: Board, s: Seq<char>) -> Option<Board> {
    let legal = legal_moves(b);
    let i = san_pick(legal, b.next_move, s);
    if can_make(b) && san_readable(legal, s) && 0 <= i && legal[i].move_int != 0 && exists|n: Board|
        #[trigger] played(b, legal[i], n) {
        Some(choose|n: Board| #[trigger] played(b, legal[i], n))
    } else {
        None
    }
}

/// How many squares hold the piece code `c`.
pub open spec fn count_code(s: Seq<i32>, c: i32) -> int
    decreases s.len(),
{
    if s.len() == 0 { 0 } else { count_code(s.drop_last(), c) + if s.last() == c { 1int } else { 0int } }
}

/// The pieces but the kings, counted: white pawns, knights, bishops,
/// rooks, queens, then the black ones.
pub open spec fn piece_counts(a: Seq<i32>) -> Seq<int> {
    seq![count_code(a, 1), count_code(a, 3), count_code(a, 5), count_code(a, 6), count_code(a, 7),
        count_code(a, 9), count_code(a, 11), count_code(a, 13), count_code(a, 14), count_code(a, 15)]
}

/// Some kind of piece is fewer in `a` than `want` asks.
pub open spec fn counts_below(a: Seq<i32>, want: Seq<int>) -> bool {
    exists|k: int| 0 <= k < 10 && #[trigger] piece_counts(a)[k] < want[k]
}

/// Every kind of piece is as many in `a` as `want` asks.
pub open spec fn counts_equal(a: Seq<i32>, want: Seq<int>) -> bool {
    forall|k: int| 0 <= k < 10 ==> #[trigger] piece_counts(a)[k] == want[k]
}

/// The squares `a` hold every piece of the pattern `t` (which has one).
pub open spec fn pattern_found(a: Seq<i32>, t: Seq<i32>) -> bool {
    &&& exists|i: int| 0 <= i < t.len() && #[trigger] t[i] != 0
    &&& forall|i: int| 0 <= i < t.len() && #[trigger] t[i] != 0 ==> a[i] == t[i]
}

/// What a search decides after a move that leaves the squares `a` at ply
/// `ply`: 1 found, -1 give up, 0 go on.  Kind 0 looks for the squares
/// `target`, kind 1 for the pattern `target`; both give up when a kind of
/// piece is fewer than in `target`.  Kind 2 looks, from ply 61 on, for the
/// counts `want`, and gives up when a kind of piece is fewer.
pub open spec fn verdict(kind: int, target: Seq<i32>, want: Seq<int>, a: Seq<i32>, ply: int) -> int {
    if kind == 0 {
        if a == target { 1 } else if counts_below(a, piece_counts(target)) { -1 } else { 0 }
    } else if kind == 1 {
        if pattern_found(a, target) { 1 } else if counts_below(a, piece_counts(target)) { -1 } else { 0 }
    } else {
        if ply <= 60 { 0 } else if counts_equal(a, want) { 1 } else if counts_below(a, want) { -1 } else { 0 }
    }
}

/// The result of searching the move texts `ts` from `i` on, with the board
/// `b`, `ply` moves played: `num` when a move reaches what is looked for,
/// -1 when the search gives up, the text ends, or it cannot be read (an
/// unclosed comment or variation, a text that is no move, a move that
/// cannot be played).  Comments and variations are passed over.
pub open spec fn scan(b: Board, ts: Seq<Seq<char>>, i: int, kind: int, target: Seq<i32>, want: Seq<int>, ply: int,
    num: int) -> int
    decreases ts.len() - i,
{
    if i < 0 || i >= ts.len() {
        -1
    } else {
        let t = ts[i];
        if passed_over(t) {
            scan(b, ts, i + 1, kind, target, want, ply, num)
        } else if t == seq!['{'] {
            let j = close_brace(ts, i + 1);
            proof { lemma_close_brace(ts, i + 1); }
            if j < 0 { -1 } else { scan(b, ts, j + 1, kind, target, want, ply, num) }
        } else if t == seq!['('] {
            let j = var_close(ts, i + 1, 1);
            proof { lemma_var_close(ts, i + 1, 1); }
            if j < 0 { -1 } else { scan(b, ts, j + 1, kind, target, want, ply, num) }
        } else if is_san_token(t) {
            match san_step(b, castle_form(t, kind != 1)) {
                None => -1,
                Some(n) => {
                    let v = verdict(kind, target, want, n.square@, ply + 1);
                    if v == 1 {
                        num
                    } else if v == -1 {
                        -1
                    } else {
                        scan(n, ts, i + 1, kind, target, want, ply + 1, num)
                    }
                },
            }
        } else {
            -1
        }
    }
}

/// A move played from boards in the same state gives boards in the same state.
pub proof fn lemma_played_same_state(a: Board, b: Board, m: crate::movim::Movim, n: Board)
    requires
        a.same_state(b),
    ensures
        played(a, m, n) == played(b, m, n),
{
}

/// The boards a move can lead to are in the same state.
pub proof fn lemma_played_unique(b: Board, m: crate::movim::Movim, n1: Board, n2: Board)
    requires
        played(b, m, n1),
        played(b, m, n2),
    ensures
        n1.same_state(n2),
        n1.wf(),
{
    lemma_pos_after_unique(b, b, m, n1, n2);
}

/// The search gives the same result on boards in the same state.
pub proof fn lemma_scan_congruent(a: Board, b: Board, ts: Seq<Seq<char>>, i: int, kind: int, target: Seq<i32>,
    want: Seq<int>, ply: int, num: int)
    requires
        a.wf(),
        b.wf(),
        a.same_state(b),
    ensures
        scan(a, ts, i, kind, target, want, ply, num) == scan(b, ts, i, kind, target, want, ply, num),
    decreases ts.len() - i,
{
    if 0 <= i < ts.len() {
        let t = ts[i];
        if passed_over(t) {
            lemma_scan_congruent(a, b, ts, i + 1, kind, target, want, ply, num);
        } else if t == seq!['{'] {
            lemma_close_brace(ts, i + 1);
            let j = close_brace(ts, i + 1);
            if j >= 0 {
                lemma_scan_congruent(a, b, ts, j + 1, kind, target, want, ply, num);
            }
        } else if t == seq!['('] {
            lemma_var_close(ts, i + 1, 1);
            let j = var_close(ts, i + 1, 1);
            if j >= 0 {
                lemma_scan_congruent(a, b, ts, j + 1, kind, target, want, ply, num);
            }
        } else if is_san_token(t) {
            let s = castle_form(t, kind != 1);
            lemma_legal_congruent(a, b);
            let legal = legal_moves(a);
            let k = san_pick(legal, a.next_move, s);
            assert(can_make(a) == can_make(b));
            assert(legal_moves(b) == legal);
            if !(can_make(a) && san_readable(legal, s) && 0 <= k && legal[k].move_int != 0) {
                assert(san_step(a, s) is None);
                assert(san_step(b, s) is None);
            } else {
                let m = legal[k];
                assert forall|n: Board| #![trigger played(a, m, n)] #![trigger played(b, m, n)] played(a, m, n)
                    == played(b, m, n) by {
                    lemma_played_same_state(a, b, m, n);
                }
                if exists|n: Board| #[trigger] played(a, m, n) {
                    let c1 = choose|n: Board| #[trigger] played(a, m, n);
                    let c2 = choose|n: Board| #[trigger] played(b, m, n);
                    assert(played(a, m, c2));
                    lemma_played_unique(a, m, c1, c2);
                    lemma_played_unique(a, m, c2, c1);
                    assert(san_step(a, s) == Some(c1));
                    assert(san_step(b, s) == Some(c2));
                    lemma_scan_congruent(c1, c2, ts, i + 1, kind, target, want, ply + 1, num);
                } else {
                    assert(san_step(a, s) is None);
                    assert(san_step(b, s) is None);
                }
            }
        }
    }
}


/// Whether two texts are equal.
pub fn text_eq(a: &Vec<char>, b: &Vec<char>) -> (r: bool)
    ensures
        r == (a@ == b@),
{
    if a.len() != b.len() {
        return false;
    }
    let mut i: usize = 0;
    while i < a.len()
        invariant
            a.len() == b.len(),
            i <= a.len(),
            forall|j: int| 0 <= j < i ==> a@[j] == b@[j],
        decreases a.len() - i,
    {
        if a[i] != b[i] {
            return false;
        }
        i = i + 1;
    }
    assert(a@ =~= b@);
    true
}

pub(crate) fn is_text(a: &Vec<char>, lit: &str) -> (r: bool)
    ensures
        r == (a@ == lit@),
{
    text_eq(a, &chars_of(lit))
}

pub(crate) fn is_one(a: &Vec<char>, c: char) -> (r: bool)
    ensures
        r == (a@ == seq![c]),
{
    let r = a.len() == 1 && a[0] == c;
    proof {
        if r { assert(a@ =~= seq![c]); }
        if a@ == seq![c] { assert(a@[0] == c); }
    }
    r
}

fn passed_over_exec(t: &Vec<char>) -> (r: bool)
    ensures
        r == passed_over(t@),
{
    if is_text(t, "*") || is_text(t, "1-0") || is_text(t, "0-1") || is_text(t, "1/2-1/2") {
        return true;
    }
    if t.len() > 0 && (t[0] == '$' || ('1' <= t[0] && t[0] <= '9')) {
        return true;
    }
    if t.len() == 0 {
        return false;
    }
    assert(!passed_over(t@) <== !all_dots(t@));
    let mut i: usize = 0;
    while i < t.len()
        invariant
            i <= t.len(),
            !passed_over(t@) <== !all_dots(t@),
            forall|j: int| 0 <= j < i ==> t@[j] == '.',
        decreases t.len() - i,
    {
        if t[i] != '.' {
            assert(!all_dots(t@)) by {
                assert(t@[i as int] != '.');
            }
            return false;
        }
        i = i + 1;
    }
    true
}

pub(crate) fn close_brace_exec(ts: &Vec<Vec<char>>, i: usize, Ghost(tss): Ghost<Seq<Seq<char>>>) -> (r: Option<usize>)
    requires
        ts.len() == tss.len(),
        forall|j: int| 0 <= j < ts.len() ==> (#[trigger] ts[j])@ == tss[j],
    ensures
        match r {
            Some(j) => close_brace(tss, i as int) == j,
            None => close_brace(tss, i as int) == -1,
        },
{
    let mut j = i;
    while j < ts.len()
        invariant
            i <= j,
            ts.len() == tss.len(),
            forall|k: int| 0 <= k < ts.len() ==> (#[trigger] ts[k])@ == tss[k],
            close_brace(tss, j as int) == close_brace(tss, i as int),
        decreases ts.len() - j,
    {
        if is_one(&ts[j], '}') {
            return Some(j);
        }
        j = j + 1;
    }
    None
}

fn var_close_exec(ts: &Vec<Vec<char>>, i: usize, Ghost(tss): Ghost<Seq<Seq<char>>>) -> (r: Option<usize>)
    requires
        ts.len() == tss.len(),
        forall|j: int| 0 <= j < ts.len() ==> (#[trigger] ts[j])@ == tss[j],
    ensures
        match r {
            Some(j) => var_close(tss, i as int, 1) == j,
            None => var_close(tss, i as int, 1) == -1,
        },
{
    let mut j = i;
    let mut depth: i128 = 1;
    while j < ts.len()
        invariant
            i <= j,
            1 <= depth <= j - i + 1,
            ts.len() == tss.len(),
            forall|k: int| 0 <= k < ts.len() ==> (#[trigger] ts[k])@ == tss[k],
            var_close(tss, j as int, depth as int) == var_close(tss, i as int, 1),
        decreases ts.len() - j,
    {
        assert(ts[j as int]@ == tss[j as int]);
        assert(seq![')'] != seq!['(']) by {
            assert(seq![')'][0] != seq!['('][0]);
        }
        if is_one(&ts[j], ')') {
            depth = depth - 1;
        } else if is_one(&ts[j], '(') {
            depth = depth + 1;
        }
        if depth == 0 {
            return Some(j);
        }
        j = j + 1;
    }
    None
}

pub(crate) fn castle_form_exec(t: &Vec<char>, all_forms: bool) -> (r: Vec<char>)
    ensures
        r@ == castle_form(t@, all_forms),
{
    if is_text(t, "0-0") || (all_forms && (is_text(t, "0-0+") || is_text(t, "O-O") || is_text(t, "O-O+"))) {
        chars_of("O-O")
    } else if is_text(t, "0-0-0") || (all_forms && (is_text(t, "0-0-0+") || is_text(t, "O-O-O") || is_text(t,
        "O-O-O+"))) {
        chars_of("O-O-O")
    } else {
        crate::sanmove::sub_chars(t, 0, t.len())
    }
}

fn count_code_exec(a: &[i32; 64], c: i32) -> (r: usize)
    ensures
        r == count_code(a@, c),
        r <= 64,
{
    let mut n: usize = 0;
    let mut i: usize = 0;
    while i < 64
        invariant
            i <= 64,
            n <= i,
            n == count_code(a@.take(i as int), c),
        decreases 64 - i,
    {
        assert(a@.take(i as int + 1).drop_last() == a@.take(i as int));
        if a[i] == c {
            n = n + 1;
        }
        i = i + 1;
    }
    assert(a@.take(64) == a@);
    n
}

fn piece_counts_exec(a: &[i32; 64]) -> (r: Vec<usize>)
    ensures
        r.len() == 10,
        forall|k: int| 0 <= k < 10 ==> r[k] as int == #[trigger] piece_counts(a@)[k],
{
    let mut r: Vec<usize> = Vec::new();
    r.push(count_code_exec(a, 1));
    r.push(count_code_exec(a, 3));
    r.push(count_code_exec(a, 5));
    r.push(count_code_exec(a, 6));
    r.push(count_code_exec(a, 7));
    r.push(count_code_exec(a, 9));
    r.push(count_code_exec(a, 11));
    r.push(count_code_exec(a, 13));
    r.push(count_code_exec(a, 14));
    r.push(count_code_exec(a, 15));
    r
}

/// The counts as numbers.
pub open spec fn counts_view(w: Seq<usize>) -> Seq<int> {
    w.map_values(|x: usize| x as int)
}

fn below_exec(a: &[i32; 64], want: &Vec<usize>) -> (r: bool)
    requires
        want.len() == 10,
    ensures
        r == counts_below(a@, counts_view(want@)),
{
    let c = piece_counts_exec(a);
    let mut k: usize = 0;
    while k < 10
        invariant
            k <= 10,
            want.len() == 10,
            c.len() == 10,
            forall|j: int| 0 <= j < 10 ==> c[j] as int == #[trigger] piece_counts(a@)[j],
            forall|j: int| 0 <= j < k ==> !(#[trigger] piece_counts(a@)[j] < counts_view(want@)[j]),
        decreases 10 - k,
    {
        if c[k] < want[k] {
            assert(piece_counts(a@)[k as int] < counts_view(want@)[k as int]);
            return true;
        }
        k = k + 1;
    }
    false
}

fn equal_counts_exec(a: &[i32; 64], want: &Vec<usize>) -> (r: bool)
    requires
        want.len() == 10,
    ensures
        r == counts_equal(a@, counts_view(want@)),
{
    let c = piece_counts_exec(a);
    let mut k: usize = 0;
    while k < 10
        invariant
            k <= 10,
            want.len() == 10,
            c.len() == 10,
            forall|j: int| 0 <= j < 10 ==> c[j] as int == #[trigger] piece_counts(a@)[j],
            forall|j: int| 0 <= j < k ==> #[trigger] piece_counts(a@)[j] == counts_view(want@)[j],
        decreases 10 - k,
    {
        if c[k] != want[k] {
            assert(piece_counts(a@)[k as int] != counts_view(want@)[k as int]);
            return false;
        }
        k = k + 1;
    }
    true
}

fn pattern_found_exec(a: &[i32; 64], t: &[i32; 64]) -> (r: bool)
    ensures
        r == pattern_found(a@, t@),
{
    let mut any = false;
    let mut i: usize = 0;
    while i < 64
        invariant
            i <= 64,
            any == (exists|j: int| 0 <= j < i && #[trigger] t@[j] != 0),
            forall|j: int| 0 <= j < i && #[trigger] t@[j] != 0 ==> a@[j] == t@[j],
        decreases 64 - i,
    {
        if t[i] != 0 {
            if a[i] != t[i] {
                assert(t@[i as int] != 0 && a@[i as int] != t@[i as int]);
                return false;
            }
            any = true;
        }
        i = i + 1;
    }
    any
}

fn squares_eq(a: &[i32; 64], t: &[i32; 64]) -> (r: bool)
    ensures
        r == (a@ == t@),
{
    let mut i: usize = 0;
    while i < 64
        invariant
            i <= 64,
            forall|j: int| 0 <= j < i ==> a@[j] == t@[j],
        decreases 64 - i,
    {
        if a[i] != t[i] {
            return false;
        }
        i = i + 1;
    }
    assert(a@ =~= t@);
    true
}

fn verdict_exec(kind: u8, target: &[i32; 64], want: &Vec<usize>, a: &[i32; 64], ply: usize) -> (r: i8)
    requires
        want.len() == 10,
    ensures
        r == verdict(kind as int, target@, counts_view(want@), a@, ply as int),
{
    if kind == 0 || kind == 1 {
        let found = if kind == 0 { squares_eq(a, target) } else { pattern_found_exec(a, target) };
        if found {
            return 1;
        }
        let tc = piece_counts_exec(target);
        proof {
            assert(counts_view(tc@) =~= piece_counts(target@));
        }
        if below_exec(a, &tc) { -1 } else { 0 }
    } else {
        if ply <= 60 {
            0
        } else if equal_counts_exec(a, want) {
            1
        } else if below_exec(a, want) {
            -1
        } else {
            0
        }
    }
}

/// Searches the move texts `ts` from the board `b` on (see `scan`).
pub fn search_moves(b: &mut Board, ts: &Vec<Vec<char>>, kind: u8, target: &[i32; 64], want: &Vec<usize>, num: i32,
    Ghost(tss): Ghost<Seq<Seq<char>>>) -> (r: i32)
    requires
        old(b).wf(),
        want.len() == 10,
        ts.len() == tss.len(),
        forall|j: int| 0 <= j < ts.len() ==> (#[trigger] ts[j])@ == tss[j],
    ensures
        r == scan(*old(b), tss, 0, kind as int, target@, counts_view(want@), 0, num as int),
{
    let ghost res = scan(*old(b), tss, 0, kind as int, target@, counts_view(want@), 0, num as int);
    let mut i: usize = 0;
    let mut ply: usize = 0;
    while i < ts.len()
        invariant
            i <= ts.len(),
            ply <= i,
            b.wf(),
            want.len() == 10,
            ts.len() == tss.len(),
            forall|j: int| 0 <= j < ts.len() ==> (#[trigger] ts[j])@ == tss[j],
            scan(*b, tss, i as int, kind as int, target@, counts_view(want@), ply as int, num as int) == res,
            res == scan(*old(b), tss, 0, kind as int, target@, counts_view(want@), 0, num as int),
        decreases ts.len() - i,
    {
        let t = &ts[i];
        assert(t@ == tss[i as int]);
        if passed_over_exec(t) {
            i = i + 1;
        } else if is_one(t, '{') {
            assert(tss[i as int] == seq!['{']);
            proof { lemma_close_brace(tss, i + 1); }
            match close_brace_exec(ts, i + 1, Ghost(tss)) {
                Some(j) => { i = j + 1; },
                None => {
                    assert(!passed_over(tss[i as int]));
                    assert(close_brace(tss, i + 1) == -1);
                    assert(scan(*b, tss, i as int, kind as int, target@, counts_view(want@), ply as int, num as int) == -1);
                    assert(res == -1);
                    return -1;
                },
            }
        } else if is_one(t, '(') {
            assert(tss[i as int] == seq!['(']);
            proof { lemma_var_close(tss, i + 1, 1); }
            match var_close_exec(ts, i + 1, Ghost(tss)) {
                Some(j) => { i = j + 1; },
                None => {
                    assert(!passed_over(tss[i as int]));
                    assert(tss[i as int] != seq!['{']);
                    assert(var_close(tss, i + 1, 1) == -1);
                    assert(scan(*b, tss, i as int, kind as int, target@, counts_view(want@), ply as int, num as int) == -1);
                    assert(res == -1);
                    return -1;
                },
            }
        } else if t.len() > 0 && (('a' <= t[0] && t[0] <= 'h') || t[0] == 'R' || t[0] == 'B' || t[0] == 'N'
            || t[0] == 'Q' || t[0] == 'K' || t[0] == 'O' || t[0] == '0') {
            assert(is_san_token(t@));
            let s = castle_form_exec(t, kind != 1);
            let ss = string_from_chars(&s);
            let ghost before = *b;
            let mv = b.make_san_move_checked(ss.as_str());
            if mv.movim.move_int == 0 {
                proof {
                    let legal = legal_moves(before);
                    let k = san_pick(legal, before.next_move, s@);
                    if can_make(before) && san_readable(legal, s@) && 0 <= k {
                        assert(legal[k].move_int == 0);
                    }
                    assert(san_step(before, s@) is None);
                }
                return -1;
            }
            proof {
                let legal = legal_moves(before);
                let k = san_pick(legal, before.next_move, s@);
                assert(can_make(before) && san_readable(legal, s@) && 0 <= k);
                let m = legal[k];
                assert(played(before, m, *b));
                let c = choose|n: Board| #[trigger] played(before, m, n);
                assert(san_step(before, s@) == Some(c));
                lemma_played_unique(before, m, *b, c);
                lemma_played_unique(before, m, c, *b);
                lemma_scan_congruent(*b, c, tss, i + 1, kind as int, target@, counts_view(want@), ply + 1,
                    num as int);
            }
            ply = ply + 1;
            let v = verdict_exec(kind, target, want, &b.square, ply);
            if v == 1 {
                return num;
            } else if v == -1 {
                return -1;
            }
            i = i + 1;
        } else {
            assert(!is_san_token(tss[i as int]));
            assert(!passed_over(tss[i as int]));
            assert(tss[i as int] != seq!['{']);
            assert(tss[i as int] != seq!['(']);
            assert(scan(*b, tss, i as int, kind as int, target@, counts_view(want@), ply as int, num as int) == -1);
            assert(res == -1);
            return -1;
        }
    }
    -1
}


/// The text has more than one byte in UTF-8.
pub open spec fn more_than_one_byte(s: Seq<char>) -> bool {
    s.len() >= 2 || (s.len() == 1 && s[0] as int >= 128)
}

/// The FEN a search starts from: the game's, when it is given (more than
/// one byte), else the initial position.
pub open spec fn start_fen_of(s: Seq<char>) -> Seq<char> {
    if more_than_one_byte(s) { s } else { DEFAULT_POSITION@ }
}

/// A board as `new_board` and `setup_fen` leave it for the FEN `f`.
pub open spec fn fen_board(b: Board, f: Seq<char>) -> bool {
    let w = words(f);
    &&& b.wf()
    &&& b.square@ == placement_squares(w[0])
    &&& b.next_move == (if w[1] == seq!['b'] { 1u8 } else { 0u8 })
    &&& b.castle_white == castle_rights(w[2], 'K', 'Q')
    &&& b.castle_black == castle_rights(w[2], 'k', 'q')
    &&& b.ep_square == ep_value(w[3])
    &&& b.fifty_move == parse_i32(w[4])->0
    &&& b.full_moves == parse_i32(w[5])->0
    &&& b.end_of_search == 0
}

/// What a search of the game `moves` from the FEN `fen` gives (see `scan`):
/// -1 when the FEN cannot be read.
pub open spec fn search_result(moves: Seq<char>, fen: Seq<char>, kind: int, target: Seq<i32>, want: Seq<int>,
    num: int, r: int) -> bool {
    let f = start_fen_of(fen);
    &&& !fen_ok(f) ==> r == -1
    &&& fen_ok(f) ==> exists|b: Board| fen_board(b, f) && r == scan(b, pieces(moves, ' '), 0, kind, target, want,
        0, num)
}

fn search_game(pgn_moves: &String, start_fen: &String, kind: u8, target: &[i32; 64], want: &Vec<usize>, num: i32)
    -> (r: i32)
    requires
        want.len() == 10,
    ensures
        search_result(pgn_moves@, start_fen@, kind as int, target@, counts_view(want@), num as int, r as int),
{
    let sf = chars_of(start_fen.as_str());
    let given = sf.len() >= 2 || (sf.len() == 1 && sf[0] >= '\u{80}');
    assert(given == more_than_one_byte(start_fen@));
    let fen: String = if given { string_from_chars(&sf) } else { crate::globs::DEFAULT_POSITION.to_owned() };
    assert(fen@ == start_fen_of(start_fen@));
    if !crate::fen::fen_valid(fen.as_str()) {
        return -1;
    }
    let mut b = crate::wchess::new_board();
    b.setup_fen(fen);
    let ghost b0 = b;
    let text = chars_of(pgn_moves.as_str());
    let toks = split_chars(&text, ' ');
    let r = search_moves(&mut b, &toks, kind, target, want, num, Ghost(pieces(pgn_moves@, ' ')));
    assert(fen_board(b0, start_fen_of(start_fen@)));
    r
}

/// Searches the main line of a game for the position `search_array`:
/// `game_num` (as an `i32`) when a move reaches it, -1 when the game ends
/// first, a kind of piece becomes fewer than in it, or the game cannot be
/// read (see `search_result`, kind 0).
pub fn search_pattern_exact_fen(pgn_moves: String, start_fen: String, game_num: usize, search_array: [i32; 64])
    -> (r: i32)
    ensures
        search_result(pgn_moves@, start_fen@, 0, search_array@, counts_view(seq![0usize, 0, 0, 0, 0, 0, 0, 0, 0, 0]),
            (game_num as i32) as int, r as int),
{
    let want: Vec<usize> = vec![0, 0, 0, 0, 0, 0, 0, 0, 0, 0];
    assert(want@ =~= seq![0usize, 0, 0, 0, 0, 0, 0, 0, 0, 0]);
    #[verifier::truncate]
    let num = game_num as i32;
    search_game(&pgn_moves, &start_fen, 0, &search_array, &want, num)
}

/// Searches the main line of a game for a position that holds every piece
/// of `search_array` on its square (see `search_result`, kind 1).
pub fn search_pattern_position_fen(pgn_moves: String, start_fen: String, game_num: usize, search_array: [i32; 64])
    -> (r: i32)
    ensures
        search_result(pgn_moves@, start_fen@, 1, search_array@, counts_view(seq![0usize, 0, 0, 0, 0, 0, 0, 0, 0, 0]),
            (game_num as i32) as int, r as int),
{
    let want: Vec<usize> = vec![0, 0, 0, 0, 0, 0, 0, 0, 0, 0];
    assert(want@ =~= seq![0usize, 0, 0, 0, 0, 0, 0, 0, 0, 0]);
    #[verifier::truncate]
    let num = game_num as i32;
    search_game(&pgn_moves, &start_fen, 1, &search_array, &want, num)
}

/// Where a letter of a material query counts: white pawns, knights,
/// bishops, rooks, queens, then the black ones; -1 for other letters.
pub open spec fn letter_slot(c: char) -> int {
    if c == 'P' { 0 } else if c == 'N' { 1 } else if c == 'B' { 2 } else if c == 'R' { 3 } else if c == 'Q' { 4 }
    else if c == 'p' { 5 } else if c == 'n' { 6 } else if c == 'b' { 7 } else if c == 'r' { 8 } else if c == 'q' {
        9
    } else { -1 }
}

/// The number after the letter of a query part.
pub open spec fn part_value(p: Seq<char>) -> int {
    digits_value(usize_digits(p.skip(1)))
}

/// A query part with a counting letter has a number that fits a `usize`.
pub open spec fn part_ok(p: Seq<char>) -> bool {
    p.len() > 0 && letter_slot(p[0]) >= 0 ==> {
        let d = usize_digits(p.skip(1));
        &&& d.len() > 0
        &&& all_digits(d)
        &&& digits_value(d) <= usize::MAX
    }
}

/// The count the query parts `ps` ask for the slot `k`: the last part for it
/// wins; 0 when none asks.
pub open spec fn query_count(ps: Seq<Seq<char>>, k: int) -> int
    decreases ps.len(),
{
    if ps.len() == 0 {
        0
    } else if ps.last().len() > 0 && letter_slot(ps.last()[0]) == k {
        part_value(ps.last())
    } else {
        query_count(ps.drop_last(), k)
    }
}

/// The counts a query such as "P4+p4+R1+r1" asks for, by slot.
pub open spec fn query_counts(q: Seq<char>) -> Seq<int> {
    Seq::new(10, |k: int| query_count(pieces(q, '+'), k))
}

/// Every part of the query can be read.
pub open spec fn query_ok(q: Seq<char>) -> bool {
    forall|j: int| 0 <= j < pieces(q, '+').len() ==> part_ok(#[trigger] pieces(q, '+')[j])
}

/// The value of the digits `s[a..b]`, which fits a `usize`.
fn digits_usize(s: &Vec<char>, a: usize, b: usize) -> (r: usize)
    requires
        a <= b <= s.len(),
        forall|i: int| a <= i < b ==> is_digit(#[trigger] s@[i]),
        digits_value(s@.subrange(a as int, b as int)) <= usize::MAX,
    ensures
        r == digits_value(s@.subrange(a as int, b as int)),
{
    let mut acc: usize = 0;
    let mut i = a;
    while i < b
        invariant
            a <= i <= b,
            b <= s.len(),
            forall|j: int| a <= j < b ==> is_digit(#[trigger] s@[j]),
            digits_value(s@.subrange(a as int, b as int)) <= usize::MAX,
            acc == digits_value(s@.subrange(a as int, i as int)),
        decreases b - i,
    {
        assert(is_digit(s@[i as int]));
        assert(s@.subrange(a as int, i as int + 1).drop_last() =~= s@.subrange(a as int, i as int));
        proof {
            crate::levels::lemma_prefix_value(s@.subrange(a as int, b as int), (i - a + 1) as int);
            crate::levels::lemma_value_nonneg(s@.subrange(a as int, i as int));
        }
        assert(s@.subrange(a as int, b as int).take((i - a + 1) as int) =~= s@.subrange(a as int, i as int + 1));
        let d = (s[i] as u32 - '0' as u32) as usize;
        acc = acc * 10 + d;
        i = i + 1;
    }
    acc
}

fn letter_slot_exec(c: char) -> (r: i8)
    ensures
        r == letter_slot(c),
{
    if c == 'P' { 0 } else if c == 'N' { 1 } else if c == 'B' { 2 } else if c == 'R' { 3 } else if c == 'Q' { 4 }
    else if c == 'p' { 5 } else if c == 'n' { 6 } else if c == 'b' { 7 } else if c == 'r' { 8 } else if c == 'q' {
        9
    } else { -1 }
}

/// The counts a material query asks for (see `query_counts`).
pub fn read_query(q: &String) -> (want: Vec<usize>)
    requires
        query_ok(q@),
    ensures
        want.len() == 10,
        counts_view(want@) == query_counts(q@),
{
    let text = chars_of(q.as_str());
    let parts = split_chars(&text, '+');
    let ghost ps = pieces(q@, '+');
    let mut want: Vec<usize> = vec![0, 0, 0, 0, 0, 0, 0, 0, 0, 0];
    let mut i: usize = 0;
    while i < parts.len()
        invariant
            i <= parts.len(),
            parts.len() == ps.len(),
            forall|j: int| 0 <= j < parts.len() ==> (#[trigger] parts[j])@ == ps[j],
            forall|j: int| 0 <= j < ps.len() ==> part_ok(#[trigger] ps[j]),
            want.len() == 10,
            forall|k: int| 0 <= k < 10 ==> want[k] as int == #[trigger] query_count(ps.take(i as int), k),
        decreases parts.len() - i,
    {
        let part = &parts[i];
        assert(part@ == ps[i as int]);
        assert(part_ok(ps[i as int]));
        assert(ps.take(i as int + 1).drop_last() == ps.take(i as int));
        assert(ps.take(i as int + 1).last() == ps[i as int]);
        let ghost before = want@;
        if part.len() > 0 {
            let slot = letter_slot_exec(part[0]);
            if slot >= 0 {
                let start: usize = if part.len() > 1 && part[1] == '+' { 2 } else { 1 };
                assert(part@.subrange(start as int, part.len() as int) == usize_digits(part@.skip(1)));
                assert forall|k: int| start <= k < part.len() implies is_digit(#[trigger] part@[k]) by {
                    assert(part@[k] == usize_digits(part@.skip(1))[k - start]);
                }
                let v = digits_usize(part, start, part.len());
                assert(v == part_value(ps[i as int]));
                want.set(slot as usize, v);
                assert forall|k: int| 0 <= k < 10 implies want[k] as int == #[trigger] query_count(ps.take(i + 1),
                    k) by {
                    let l = ps.take(i + 1);
                    assert(l.last() == part@);
                    assert(l.drop_last() == ps.take(i as int));
                    assert(l.last().len() > 0 && letter_slot(l.last()[0]) == slot as int);
                    if k != slot {
                        assert(want[k] == before[k]);
                        assert(before[k] as int == query_count(ps.take(i as int), k));
                        assert(query_count(l, k) == query_count(ps.take(i as int), k));
                    } else {
                        assert(want[k] == v);
                        assert(query_count(l, k) == part_value(part@));
                    }
                }
            } else {
                assert forall|k: int| 0 <= k < 10 implies want[k] as int == #[trigger] query_count(ps.take(i + 1),
                    k) by {
                    assert(query_count(ps.take(i + 1), k) == query_count(ps.take(i as int), k));
                }
            }
        } else {
            assert forall|k: int| 0 <= k < 10 implies want[k] as int == #[trigger] query_count(ps.take(i + 1), k) by {
                assert(query_count(ps.take(i + 1), k) == query_count(ps.take(i as int), k));
            }
        }
        i = i + 1;
    }
    assert(ps.take(i as int) == ps);
    assert(counts_view(want@) =~= query_counts(q@));
    want
}

/// Searches the main line of a game, from its 61st move on, for a position
/// with the material the query asks for, such as "P4+p4+R1+r1" (see
/// `search_result`, kind 2, and `query_counts`).
pub fn search_pattern_material(pgn_moves: String, start_fen: String, game_num: usize, search_string: String)
    -> (r: i32)
    requires
        query_ok(search_string@),
    ensures
        search_result(pgn_moves@, start_fen@, 2, Seq::new(64, |i: int| 0i32), query_counts(search_string@),
            (game_num as i32) as int, r as int),
{
    let want = read_query(&search_string);
    let target: [i32; 64] = [0i32; 64];
    assert(target@ =~= Seq::new(64, |i: int| 0i32));
    #[verifier::truncate]
    let num = game_num as i32;
    search_game(&pgn_moves, &start_fen, 2, &target, &want, num)
}

}
