use vstd::prelude::*;
use crate::fen::{is_ws, is_digit, all_digits, digits_value};
use crate::globs::DEFAULT_POSITION;
use crate::pgnglobs::{PgnGame, EMPTY_GAME};
use crate::strutil::{chars_of, string_from_chars, int_chars};

verus! {

// The text of PGN move sections: bracketed remarks are dropped, NAGs,
// comments and variations are set apart by spaces, move numbers get one
// dot and a space, and runs of white space shrink to one space.

/// The first `]` from `q` on, before any line break; -1 when there is none.
pub open spec fn close_from(s: Seq<char>, q: int) -> int
    decreases s.len() - q,
{
    if q < 0 || q >= s.len() || s[q] == '\n' {
        -1
    } else if s[q] == ']' {
        q
    } else {
        close_from(s, q + 1)
    }
}

/// The last position of a bracketed remark `[x...]` (x not `%`) that starts
/// at `p`; -1 when none starts there.
pub open spec fn bracket_at(s: Seq<char>, p: int) -> int {
    if 0 <= p && p + 1 < s.len() && s[p] == '[' && s[p + 1] != '%' {
        close_from(s, p + 2)
    } else {
        -1
    }
}

/// `s` from `p` on without its bracketed remarks.
pub open spec fn strip_brackets(s: Seq<char>, p: int) -> Seq<char>
    decreases s.len() - p,
{
    if p < 0 || p >= s.len() {
        seq![]
    } else if bracket_at(s, p) >= p {
        proof { lemma_close_from(s, p + 2); }
        strip_brackets(s, bracket_at(s, p) + 1)
    } else {
        seq![s[p]] + strip_brackets(s, p + 1)
    }
}

pub proof fn lemma_close_from(s: Seq<char>, q: int)
    requires
        0 <= q,
    ensures
        close_from(s, q) == -1 || (q <= close_from(s, q) < s.len() && s[close_from(s, q)] == ']'),
    decreases s.len() - q,
{
    if q < s.len() && s[q] != '\n' && s[q] != ']' {
        lemma_close_from(s, q + 1);
    }
}

fn close_from_exec(s: &Vec<char>, q: usize) -> (r: Option<usize>)
    ensures
        match r {
            Some(j) => close_from(s@, q as int) == j,
            None => close_from(s@, q as int) == -1,
        },
{
    let mut j = q;
    while j < s.len() && s[j] != '\n' && s[j] != ']'
        invariant
            q <= j,
            close_from(s@, j as int) == close_from(s@, q as int),
        decreases s.len() - j,
    {
        j = j + 1;
    }
    if j < s.len() && s[j] == ']' {
        Some(j)
    } else {
        None
    }
}

fn strip_brackets_exec(s: &Vec<char>) -> (v: Vec<char>)
    ensures
        v@ == strip_brackets(s@, 0),
{
    let mut v: Vec<char> = Vec::new();
    let mut p: usize = 0;
    while p < s.len()
        invariant
            p <= s.len(),
            v@ + strip_brackets(s@, p as int) == strip_brackets(s@, 0),
        decreases s.len() - p,
    {
        let mut e: Option<usize> = None;
        if p + 1 < s.len() && s[p] == '[' && s[p + 1] != '%' {
            e = close_from_exec(s, p + 2);
            proof { lemma_close_from(s@, p + 2); }
        }
        assert(match e { Some(j) => j == bracket_at(s@, p as int), None => bracket_at(s@, p as int) == -1 });
        if let Some(j) = e {
            p = j + 1;
        } else {
            let ghost old_v = v@;
            v.push(s[p]);
            assert(old_v + (seq![s@[p as int]] + strip_brackets(s@, p + 1)) == v@ + strip_brackets(s@, p + 1));
            p = p + 1;
        }
    }
    assert(v@ + strip_brackets(s@, p as int) == v@);
    v
}

/// The text a character becomes when NAGs, comments and variations are set
/// apart.
pub open spec fn spread(c: char) -> Seq<char> {
    if c == '$' {
        seq![' ', '$']
    } else if c == '{' {
        seq![' ', '{', ' ']
    } else if c == '}' {
        seq![' ', '}', ' ']
    } else if c == '(' {
        seq![' ', '(', ' ']
    } else if c == ')' {
        seq![' ', ')', ' ']
    } else {
        seq![c]
    }
}

/// Every character of `s` spread.
pub open spec fn spread_all(s: Seq<char>) -> Seq<char>
    decreases s.len(),
{
    if s.len() == 0 { seq![] } else { spread_all(s.drop_last()) + spread(s.last()) }
}

fn spread_exec(s: &Vec<char>) -> (v: Vec<char>)
    ensures
        v@ == spread_all(s@),
{
    let mut v: Vec<char> = Vec::new();
    let mut i: usize = 0;
    while i < s.len()
        invariant
            i <= s.len(),
            v@ == spread_all(s@.take(i as int)),
        decreases s.len() - i,
    {
        let c = s[i];
        let ghost before = v@;
        if c == '$' {
            v.push(' '); v.push('$');
        } else if c == '{' {
            v.push(' '); v.push('{'); v.push(' ');
        } else if c == '}' {
            v.push(' '); v.push('}'); v.push(' ');
        } else if c == '(' {
            v.push(' '); v.push('('); v.push(' ');
        } else if c == ')' {
            v.push(' '); v.push(')'); v.push(' ');
        } else {
            v.push(c);
        }
        assert(v@ == before + spread(c));
        assert(s@.take(i as int + 1).drop_last() == s@.take(i as int));
        i = i + 1;
    }
    assert(s@.take(s.len() as int) == s@);
    v
}

/// The end of the run of characters with `pred` that starts at `p`.
pub open spec fn run_end(s: Seq<char>, p: int, pred: spec_fn(char) -> bool) -> int
    decreases s.len() - p,
{
    if p < 0 || p >= s.len() || !pred(s[p]) { p } else { run_end(s, p + 1, pred) }
}

pub open spec fn digit_fn() -> spec_fn(char) -> bool {
    |c: char| is_digit(c)
}

pub open spec fn dot_fn() -> spec_fn(char) -> bool {
    |c: char| c == '.'
}

pub open spec fn ws_fn() -> spec_fn(char) -> bool {
    |c: char| is_ws(c)
}

pub proof fn lemma_run_end(s: Seq<char>, p: int, pred: spec_fn(char) -> bool)
    requires
        0 <= p <= s.len(),
    ensures
        p <= run_end(s, p, pred) <= s.len(),
        run_end(s, p, pred) < s.len() ==> !pred(s[run_end(s, p, pred)]),
        forall|i: int| p <= i < run_end(s, p, pred) ==> pred(s[i]),
    decreases s.len() - p,
{
    if p < s.len() && pred(s[p]) {
        lemma_run_end(s, p + 1, pred);
    }
}

/// Move numbers: a run of digits followed by dots becomes the digits, one
/// dot and a space; `s` from `p` on, where `p` starts a run of digits or
/// follows a character that is no digit.
pub open spec fn number_dots(s: Seq<char>, p: int) -> Seq<char>
    decreases s.len() - p,
{
    if p < 0 || p >= s.len() {
        seq![]
    } else if is_digit(s[p]) {
        let q = run_end(s, p, digit_fn());
        proof { lemma_run_end(s, p, digit_fn()); }
        if q < s.len() && s[q] == '.' && q > p {
            proof { lemma_run_end(s, q, dot_fn()); }
            s.subrange(p, q) + seq!['.', ' '] + number_dots(s, run_end(s, q, dot_fn()))
        } else if q > p {
            s.subrange(p, q) + number_dots(s, q)
        } else {
            seq![s[p]] + number_dots(s, p + 1)
        }
    } else {
        seq![s[p]] + number_dots(s, p + 1)
    }
}

/// Runs of two or more white-space characters of `s` from `p` on become
/// one space.
pub open spec fn squeeze(s: Seq<char>, p: int) -> Seq<char>
    decreases s.len() - p,
{
    if p < 0 || p >= s.len() {
        seq![]
    } else if is_ws(s[p]) && p + 1 < s.len() && is_ws(s[p + 1]) && run_end(s, p, ws_fn()) > p {
        proof { lemma_run_end(s, p, ws_fn()); }
        seq![' '] + squeeze(s, run_end(s, p, ws_fn()))
    } else {
        seq![s[p]] + squeeze(s, p + 1)
    }
}

/// The first character of `s` that is not white space (the length when none).
pub open spec fn lead_ws(s: Seq<char>) -> int {
    run_end(s, 0, ws_fn())
}

/// The end of `s` without its trailing white space.
pub open spec fn trail_ws(s: Seq<char>, e: int) -> int
    decreases e,
{
    if e <= 0 || e > s.len() || !is_ws(s[e - 1]) { e } else { trail_ws(s, e - 1) }
}

/// `s` without white space at either end (what `str::trim` leaves).
pub open spec fn trim(s: Seq<char>) -> Seq<char> {
    if lead_ws(s) >= s.len() { seq![] } else { s.subrange(lead_ws(s), trail_ws(s, s.len() as int)) }
}

/// The move text of a game in the form the move reader takes.
pub open spec fn normalized(s: Seq<char>) -> Seq<char> {
    let a = strip_brackets(s, 0);
    let b = spread_all(a);
    let c = number_dots(b, 0);
    trim(squeeze(c, 0))
}

fn run_end_digits(s: &Vec<char>, p: usize) -> (r: usize)
    requires
        p <= s.len(),
    ensures
        r == run_end(s@, p as int, digit_fn()),
{
    let mut j = p;
    while j < s.len() && '0' <= s[j] && s[j] <= '9'
        invariant
            p <= j <= s.len(),
            run_end(s@, j as int, digit_fn()) == run_end(s@, p as int, digit_fn()),
        decreases s.len() - j,
    {
        j = j + 1;
    }
    j
}

fn run_end_dots(s: &Vec<char>, p: usize) -> (r: usize)
    requires
        p <= s.len(),
    ensures
        r == run_end(s@, p as int, dot_fn()),
{
    let mut j = p;
    while j < s.len() && s[j] == '.'
        invariant
            p <= j <= s.len(),
            run_end(s@, j as int, dot_fn()) == run_end(s@, p as int, dot_fn()),
        decreases s.len() - j,
    {
        j = j + 1;
    }
    j
}

pub(crate) fn is_ws_char(c: char) -> (r: bool)
    ensures
        r == is_ws(c),
{
    ('\u{9}' <= c && c <= '\u{d}') || c == ' ' || c == '\u{85}' || c == '\u{a0}' || c == '\u{1680}'
        || ('\u{2000}' <= c && c <= '\u{200a}') || c == '\u{2028}' || c == '\u{2029}' || c == '\u{202f}'
        || c == '\u{205f}' || c == '\u{3000}'
}

fn run_end_ws(s: &Vec<char>, p: usize) -> (r: usize)
    requires
        p <= s.len(),
    ensures
        r == run_end(s@, p as int, ws_fn()),
{
    let mut j = p;
    while j < s.len() && is_ws_char(s[j])
        invariant
            p <= j <= s.len(),
            run_end(s@, j as int, ws_fn()) == run_end(s@, p as int, ws_fn()),
        decreases s.len() - j,
    {
        j = j + 1;
    }
    j
}

fn number_dots_exec(s: &Vec<char>) -> (v: Vec<char>)
    ensures
        v@ == number_dots(s@, 0),
{
    let mut v: Vec<char> = Vec::new();
    let mut p: usize = 0;
    while p < s.len()
        invariant
            p <= s.len(),
            v@ + number_dots(s@, p as int) == number_dots(s@, 0),
        decreases s.len() - p,
    {
        let ghost before = v@;
        let c = s[p];
        if '0' <= c && c <= '9' {
            let q = run_end_digits(s, p);
            proof { lemma_run_end(s@, p as int, digit_fn()); }
            let piece = crate::sanmove::sub_chars(s, p, q);
            crate::strutil::push_all(&mut v, &piece);
            if q < s.len() && s[q] == '.' && q > p {
                v.push('.');
                v.push(' ');
                let r = run_end_dots(s, q);
                proof { lemma_run_end(s@, q as int, dot_fn()); }
                assert(before + (s@.subrange(p as int, q as int) + seq!['.', ' '] + number_dots(s@, r as int))
                    == v@ + number_dots(s@, r as int));
                p = r;
            } else {
                assert(before + (s@.subrange(p as int, q as int) + number_dots(s@, q as int)) == v@
                    + number_dots(s@, q as int));
                p = q;
            }
        } else {
            v.push(c);
            assert(before + (seq![c] + number_dots(s@, p + 1)) == v@ + number_dots(s@, p + 1));
            p = p + 1;
        }
    }
    assert(v@ + number_dots(s@, p as int) == v@);
    v
}

fn squeeze_exec(s: &Vec<char>) -> (v: Vec<char>)
    ensures
        v@ == squeeze(s@, 0),
{
    let mut v: Vec<char> = Vec::new();
    let mut p: usize = 0;
    while p < s.len()
        invariant
            p <= s.len(),
            v@ + squeeze(s@, p as int) == squeeze(s@, 0),
        decreases s.len() - p,
    {
        let ghost before = v@;
        let c = s[p];
        if is_ws_char(c) && p + 1 < s.len() && is_ws_char(s[p + 1]) {
            let r = run_end_ws(s, p);
            proof { lemma_run_end(s@, p as int, ws_fn()); }
            v.push(' ');
            assert(before + (seq![' '] + squeeze(s@, r as int)) == v@ + squeeze(s@, r as int));
            p = r;
        } else {
            v.push(c);
            assert(before + (seq![c] + squeeze(s@, p + 1)) == v@ + squeeze(s@, p + 1));
            p = p + 1;
        }
    }
    assert(v@ + squeeze(s@, p as int) == v@);
    v
}

proof fn lemma_trail_ws(s: Seq<char>, e: int)
    requires
        0 <= e <= s.len(),
    ensures
        0 <= trail_ws(s, e) <= e,
        trail_ws(s, e) > 0 ==> !is_ws(s[trail_ws(s, e) - 1]),
    decreases e,
{
    if e > 0 && is_ws(s[e - 1]) {
        lemma_trail_ws(s, e - 1);
    }
}

/// `s` without white space at either end.
pub fn trim_chars(s: &Vec<char>) -> (v: Vec<char>)
    ensures
        v@ == trim(s@),
{
    let a = run_end_ws(s, 0);
    proof { lemma_run_end(s@, 0, ws_fn()); }
    if a >= s.len() {
        return Vec::new();
    }
    let mut e = s.len();
    while e > 0 && is_ws_char(s[e - 1])
        invariant
            e <= s.len(),
            trail_ws(s@, e as int) == trail_ws(s@, s.len() as int),
        decreases e,
    {
        e = e - 1;
    }
    proof {
        lemma_trail_ws(s@, s.len() as int);
        // the character at `a` is no white space, so the end stays past it
        assert(!is_ws(s@[a as int]));
        if e <= a {
            lemma_trail_not_below(s@, s.len() as int, a as int);
        }
    }
    crate::sanmove::sub_chars(s, a, e)
}

proof fn lemma_trail_not_below(s: Seq<char>, e: int, a: int)
    requires
        0 <= a < e <= s.len(),
        !is_ws(s[a]),
    ensures
        trail_ws(s, e) > a,
    decreases e,
{
    if e - 1 > a && is_ws(s[e - 1]) {
        lemma_trail_not_below(s, e - 1, a);
    }
}

/// Sets the moves of a game apart for the move reader (see `normalized`).
pub fn normalize_pgn_moves(pgn: &mut String) -> (r: String)
    ensures
        r@ == normalized(old(pgn)@),
        final(pgn)@ == old(pgn)@,
{
    let s = crate::strutil::chars_of(pgn.as_str());
    let e = normalized_chars(&s);
    crate::strutil::string_from_chars(&e)
}

fn normalized_chars(s: &Vec<char>) -> (v: Vec<char>)
    ensures
        v@ == normalized(s@),
{
    let a = strip_brackets_exec(s);
    let b = spread_exec(&a);
    let c = number_dots_exec(&b);
    let d = squeeze_exec(&c);
    trim_chars(&d)
}


/// The pieces of `s` between the characters `c` (what `str::split` gives).
pub open spec fn pieces(s: Seq<char>, c: char) -> Seq<Seq<char>>
    decreases s.len(),
{
    if s.len() == 0 {
        seq![seq![]]
    } else {
        let p = pieces(s.drop_last(), c);
        if s.last() == c {
            p.push(seq![])
        } else {
            p.update(p.len() - 1, p.last().push(s.last()))
        }
    }
}

pub proof fn lemma_pieces_len(s: Seq<char>, c: char)
    ensures
        pieces(s, c).len() >= 1,
        pieces(s, c).len() >= 2 <==> s.contains(c),
    decreases s.len(),
{
    if s.len() > 0 {
        lemma_pieces_len(s.drop_last(), c);
        if s.drop_last().contains(c) {
            let i = choose|i: int| 0 <= i < s.drop_last().len() && s.drop_last()[i] == c;
            assert(s[i] == c);
        }
        if s.contains(c) && s.last() != c {
            let i = choose|i: int| 0 <= i < s.len() && s[i] == c;
            assert(s.drop_last()[i] == c);
        }
        if s.last() == c {
            assert(s[s.len() - 1] == c);
        }
    }
}

/// Splits `s` at each `c`.
pub fn split_chars(s: &Vec<char>, c: char) -> (r: Vec<Vec<char>>)
    ensures
        r.len() == pieces(s@, c).len(),
        forall|j: int| 0 <= j < r.len() ==> (#[trigger] r[j])@ == pieces(s@, c)[j],
{
    let mut r: Vec<Vec<char>> = Vec::new();
    let mut cur: Vec<char> = Vec::new();
    let mut i: usize = 0;
    while i < s.len()
        invariant
            i <= s.len(),
            r.len() + 1 == pieces(s@.take(i as int), c).len(),
            forall|j: int| 0 <= j < r.len() ==> (#[trigger] r[j])@ == pieces(s@.take(i as int), c)[j],
            cur@ == pieces(s@.take(i as int), c).last(),
        decreases s.len() - i,
    {
        proof { lemma_pieces_len(s@.take(i as int), c); }
        assert(s@.take(i as int + 1).drop_last() == s@.take(i as int));
        if s[i] == c {
            let done = cur;
            r.push(done);
            cur = Vec::new();
        } else {
            cur.push(s[i]);
        }
        i = i + 1;
    }
    assert(s@.take(s.len() as int) == s@);
    proof { lemma_pieces_len(s@, c); }
    r.push(cur);
    r
}


/// `w` occurs in `t`.
pub open spec fn has_text(t: Seq<char>, w: Seq<char>) -> bool {
    exists|i: int| 0 <= i && i + w.len() <= t.len() && #[trigger] t.subrange(i, i + w.len()) == w
}

fn matches_at(t: &Vec<char>, w: &Vec<char>, i: usize) -> (r: bool)
    requires
        i + w.len() <= t.len(),
    ensures
        r == (t@.subrange(i as int, i + w.len()) == w@),
{
    let mut k: usize = 0;
    while k < w.len()
        invariant
            k <= w.len(),
            i + w.len() <= t.len(),
            forall|j: int| 0 <= j < k ==> t@[i + j] == w@[j],
        decreases w.len() - k,
    {
        if t[i + k] != w[k] {
            assert(t@.subrange(i as int, i + w.len())[k as int] != w@[k as int]);
            return false;
        }
        k = k + 1;
    }
    assert(t@.subrange(i as int, i + w.len()) =~= w@);
    true
}

/// Whether `w` occurs in `t`.
pub fn has_text_exec(t: &Vec<char>, w: &Vec<char>) -> (r: bool)
    ensures
        r == has_text(t@, w@),
{
    if w.len() > t.len() {
        return false;
    }
    if w.len() == 0 {
        assert(t@.subrange(0int, 0int + w@.len()) =~= w@);
        return true;
    }
    let mut i: usize = 0;
    let last = t.len() - w.len();
    while i <= last
        invariant
            0 < w.len() <= t.len(),
            last == t.len() - w.len(),
            i <= last + 1,
            forall|j: int| 0 <= j < i ==> #[trigger] t@.subrange(j, j + w.len()) != w@,
        decreases last + 1 - i,
    {
        if matches_at(t, w, i) {
            return true;
        }
        i = i + 1;
    }
    false
}

/// A line with its carriage returns turned to spaces.
pub open spec fn cr_to_space(t: Seq<char>) -> Seq<char>
    decreases t.len(),
{
    if t.len() == 0 {
        seq![]
    } else {
        cr_to_space(t.drop_last()).push(if t.last() == '\r' { ' ' } else { t.last() })
    }
}

fn cr_to_space_exec(t: &Vec<char>) -> (v: Vec<char>)
    ensures
        v@ == cr_to_space(t@),
{
    let mut v: Vec<char> = Vec::new();
    let mut i: usize = 0;
    while i < t.len()
        invariant
            i <= t.len(),
            v@ == cr_to_space(t@.take(i as int)),
        decreases t.len() - i,
    {
        assert(t@.take(i as int + 1).drop_last() == t@.take(i as int));
        v.push(if t[i] == '\r' { ' ' } else { t[i] });
        i = i + 1;
    }
    assert(t@.take(t.len() as int) == t@);
    v
}

/// The line is a tag pair: after leading white space a `[`, a character
/// other than `%`, and later a `]`.
pub open spec fn is_header(t: Seq<char>) -> bool {
    let k = lead_ws(t);
    &&& k + 1 < t.len()
    &&& t[k] == '['
    &&& t[k + 1] != '%'
    &&& close_from(t, k + 2) >= 0
}

/// Which field a tag pair fills, by the first name found in it: site,
/// event, date, round, white, black, result, white Elo, FEN, ECO; 10 for
/// another tag.
pub open spec fn header_kind(t: Seq<char>) -> int {
    if has_text(t, "Site"@) { 0 }
    else if has_text(t, "Event"@) { 1 }
    else if has_text(t, "Date"@) { 2 }
    else if has_text(t, "Round"@) { 3 }
    else if has_text(t, "[White "@) { 4 }
    else if has_text(t, "[Black "@) { 5 }
    else if has_text(t, "Result"@) { 6 }
    else if has_text(t, "WhiteElo"@) { 7 }
    else if has_text(t, "FEN"@) { 8 }
    else if has_text(t, "ECO"@) { 9 }
    else { 10 }
}

/// What a line (carriage returns turned to spaces) holds: a field
/// (`header_kind`), 11 for move text, 12 for nothing (empty or one space).
pub open spec fn line_kind(t: Seq<char>) -> int {
    if is_header(t) {
        header_kind(t)
    } else if t != seq![' '] && t.len() > 0 {
        11
    } else {
        12
    }
}

/// The value of a tag pair: the text between its first two quotes.
pub open spec fn field_value(t: Seq<char>) -> Seq<char> {
    pieces(t, '"')[1]
}

/// The value of the last line of kind `k`, or `d` when there is none.
pub open spec fn last_value(ls: Seq<Seq<char>>, k: int, d: Seq<char>) -> Seq<char>
    decreases ls.len(),
{
    if ls.len() == 0 {
        d
    } else if line_kind(cr_to_space(ls.last())) == k {
        field_value(cr_to_space(ls.last()))
    } else {
        last_value(ls.drop_last(), k, d)
    }
}

/// The other tag pairs, as they were written.
pub open spec fn other_tags(ls: Seq<Seq<char>>) -> Seq<Seq<char>>
    decreases ls.len(),
{
    if ls.len() == 0 {
        seq![]
    } else if line_kind(cr_to_space(ls.last())) == 10 {
        other_tags(ls.drop_last()).push(ls.last())
    } else {
        other_tags(ls.drop_last())
    }
}

/// The move text: the move lines joined as they are.
pub open spec fn move_text(ls: Seq<Seq<char>>) -> Seq<char>
    decreases ls.len(),
{
    if ls.len() == 0 {
        seq![]
    } else if line_kind(cr_to_space(ls.last())) == 11 {
        move_text(ls.drop_last()) + cr_to_space(ls.last())
    } else {
        move_text(ls.drop_last())
    }
}

/// Every tag pair that fills a field holds a quote.
pub open spec fn fields_quoted(ls: Seq<Seq<char>>) -> bool {
    forall|i: int| 0 <= i < ls.len() && 0 <= #[trigger] line_kind(cr_to_space(ls[i])) <= 9
        ==> cr_to_space(ls[i]).contains('"')
}

/// The game that the text of a PGN game gives.
pub open spec fn game_read(s: Seq<char>, g: PgnGame) -> bool {
    let ls = pieces(s, '\n');
    &&& g.site@ == last_value(ls, 0, seq![])
    &&& g.event@ == last_value(ls, 1, seq![])
    &&& g.date@ == last_value(ls, 2, seq![])
    &&& g.round@ == last_value(ls, 3, seq![])
    &&& g.white@ == last_value(ls, 4, seq![])
    &&& g.black@ == last_value(ls, 5, seq![])
    &&& g.res@ == last_value(ls, 6, seq![])
    &&& g.elow@ == last_value(ls, 7, seq![])
    &&& g.elob@ == Seq::<char>::empty()
    &&& g.fen@ == last_value(ls, 8, DEFAULT_POSITION@)
    &&& g.eco@ == last_value(ls, 9, "000"@)
    &&& g.tags.len() == other_tags(ls).len()
    &&& forall|j: int| 0 <= j < g.tags.len() ==> (#[trigger] g.tags[j])@ == other_tags(ls)[j]
    &&& g.moves@ == normalized(move_text(ls))
}

/// The kind of a line (see `line_kind`).
fn line_kind_exec(t: &Vec<char>) -> (k: u8)
    ensures
        k == line_kind(t@),
{
    let a = run_end_ws(t, 0);
    proof { lemma_run_end(t@, 0, ws_fn()); }
    let header = a < t.len() && a + 1 < t.len() && t[a] == '[' && t[a + 1] != '%' && close_from_exec(t, a + 2).is_some();
    assert(header == is_header(t@));
    if header {
        assert(line_kind(t@) == header_kind(t@));
        if has_text_exec(t, &chars_of("Site")) { 0 }
        else if has_text_exec(t, &chars_of("Event")) { 1 }
        else if has_text_exec(t, &chars_of("Date")) { 2 }
        else if has_text_exec(t, &chars_of("Round")) { 3 }
        else if has_text_exec(t, &chars_of("[White ")) { 4 }
        else if has_text_exec(t, &chars_of("[Black ")) { 5 }
        else if has_text_exec(t, &chars_of("Result")) { 6 }
        else if has_text_exec(t, &chars_of("WhiteElo")) { 7 }
        else if has_text_exec(t, &chars_of("FEN")) { 8 }
        else if has_text_exec(t, &chars_of("ECO")) { 9 }
        else { 10 }
    } else if !(t.len() == 1 && t[0] == ' ') && t.len() > 0 {
        assert(t@ != seq![' ']) by {
            if t@ == seq![' '] { assert(t@[0] == ' '); }
        }
        11
    } else {
        if t.len() == 1 {
            assert(t@ =~= seq![' ']);
        }
        12
    }
}


/// The fields, other tags and move text of the lines read so far.
pub open spec fn lines_read(ls: Seq<Seq<char>>, g: PgnGame, moves: Seq<char>) -> bool {
    &&& g.site@ == last_value(ls, 0, seq![])
    &&& g.event@ == last_value(ls, 1, seq![])
    &&& g.date@ == last_value(ls, 2, seq![])
    &&& g.round@ == last_value(ls, 3, seq![])
    &&& g.white@ == last_value(ls, 4, seq![])
    &&& g.black@ == last_value(ls, 5, seq![])
    &&& g.res@ == last_value(ls, 6, seq![])
    &&& g.elow@ == last_value(ls, 7, seq![])
    &&& g.elob@ == Seq::<char>::empty()
    &&& g.fen@ == last_value(ls, 8, DEFAULT_POSITION@)
    &&& g.eco@ == last_value(ls, 9, "000"@)
    &&& g.tags.len() == other_tags(ls).len()
    &&& forall|j: int| 0 <= j < g.tags.len() ==> (#[trigger] g.tags[j])@ == other_tags(ls)[j]
    &&& moves == move_text(ls)
}

/// Reads one line into the game.
fn read_line(g: &mut PgnGame, moves: &mut Vec<char>, line: &Vec<char>, Ghost(ls): Ghost<Seq<Seq<char>>>)
    requires
        lines_read(ls, *old(g), old(moves)@),
        0 <= line_kind(cr_to_space(line@)) <= 9 ==> cr_to_space(line@).contains('"'),
    ensures
        lines_read(ls.push(line@), *final(g), final(moves)@),
        final(g).moves == old(g).moves,
{
    let ghost l2 = ls.push(line@);
    assert(l2.drop_last() =~= ls);
    assert(l2.last() == line@);
    let t = cr_to_space_exec(line);
    let k = line_kind_exec(&t);
    if k <= 9 {
        let ps = split_chars(&t, '"');
        proof { lemma_pieces_len(t@, '"'); }
        let v = string_from_chars(&ps[1]);
        assert(v@ == field_value(t@));
        if k == 0 { g.site = v; }
        else if k == 1 { g.event = v; }
        else if k == 2 { g.date = v; }
        else if k == 3 { g.round = v; }
        else if k == 4 { g.white = v; }
        else if k == 5 { g.black = v; }
        else if k == 6 { g.res = v; }
        else if k == 7 { g.elow = v; }
        else if k == 8 { g.fen = v; }
        else { g.eco = v; }
    } else if k == 10 {
        let raw = string_from_chars(line);
        g.tags.push(raw);
        assert(other_tags(l2) == other_tags(ls).push(line@));
    } else if k == 11 {
        crate::strutil::push_all(moves, &t);
    }
}

/// Reads the tag pairs and the moves of a PGN game: each field takes the
/// value of the last tag pair of its kind, other tag pairs are kept as they
/// were written, and the move lines, joined, are set apart for the move
/// reader (see `game_read`).
pub fn parse_pgn_data(pgn: &mut String) -> (g: PgnGame)
    requires
        fields_quoted(pieces(old(pgn)@, '\n')),
    ensures
        game_read(old(pgn)@, g),
        final(pgn)@ == old(pgn)@,
{
    let s = chars_of(pgn.as_str());
    let lines = split_chars(&s, '\n');
    let ghost ls = pieces(s@, '\n');
    let mut g = PgnGame::new();
    let mut moves: Vec<char> = Vec::new();
    let mut i: usize = 0;
    assert(ls.take(0) =~= Seq::<Seq<char>>::empty());
    while i < lines.len()
        invariant
            i <= lines.len(),
            lines.len() == ls.len(),
            forall|j: int| 0 <= j < lines.len() ==> (#[trigger] lines[j])@ == ls[j],
            fields_quoted(ls),
            lines_read(ls.take(i as int), g, moves@),
        decreases lines.len() - i,
    {
        assert(lines[i as int]@ == ls[i as int]);
        read_line(&mut g, &mut moves, &lines[i], Ghost(ls.take(i as int)));
        assert(ls.take(i as int).push(ls[i as int]) =~= ls.take(i as int + 1));
        i = i + 1;
    }
    assert(ls.take(i as int) =~= ls);
    let m = normalized_chars(&moves);
    g.moves = string_from_chars(&m);
    g
}

/// Reads a PGN game as `parse_pgn_data` does.
pub fn parse_pgn_moves(pgn: &mut String) -> (g: PgnGame)
    requires
        fields_quoted(pieces(old(pgn)@, '\n')),
    ensures
        game_read(old(pgn)@, g),
        final(pgn)@ == old(pgn)@,
{
    parse_pgn_data(pgn)
}


/// The symbol of a NAG number (empty for those that have none).
pub open spec fn nag_text(i: int) -> Seq<char> {
    if i == 1 {
        "!"@
    } else if i == 2 {
        "?"@
    } else if i == 3 {
        "\u{203C}"@
    } else if i == 4 {
        "\u{2047}"@
    } else if i == 5 {
        "\u{2049}"@
    } else if i == 6 {
        "\u{2048}"@
    } else if i == 7 {
        "\u{25A1}"@
    } else if i == 10 {
        "="@
    } else if i == 13 {
        "\u{221E}"@
    } else if i == 14 {
        "\u{2A72}"@
    } else if i == 15 {
        "\u{2A71}"@
    } else if i == 16 {
        "\u{00B1}"@
    } else if i == 17 {
        "\u{2213}"@
    } else if i == 18 {
        "+-"@
    } else if i == 19 {
        "-+"@
    } else if i == 22 {
        "\u{2A00}"@
    } else if i == 23 {
        "\u{2A00}"@
    } else if i == 32 {
        "\u{27F3}"@
    } else if i == 33 {
        "\u{27F3}"@
    } else if i == 36 {
        "\u{2192}"@
    } else if i == 37 {
        "\u{2192}"@
    } else if i == 40 {
        "\u{2191}"@
    } else if i == 41 {
        "\u{2191}"@
    } else if i == 44 {
        "=/\u{221E}"@
    } else if i == 45 {
        "=/\u{221E}"@
    } else if i == 46 {
        "=/\u{221E}"@
    } else if i == 47 {
        "=/\u{221E}"@
    } else if i == 132 {
        "\u{21C6}"@
    } else if i == 133 {
        "\u{21C6}"@
    } else if i == 136 {
        "\u{2A01}"@
    } else if i == 137 {
        "\u{2A01}"@
    } else if i == 138 {
        "\u{2A01}"@
    } else if i == 139 {
        "\u{2A01}"@
    } else if i == 140 {
        "\u{2206}"@
    } else if i == 141 {
        "\u{25BD}"@
    } else if i == 142 {
        "\u{2313}"@
    } else if i == 143 {
        "\u{2264}"@
    } else if i == 145 {
        "RR"@
    } else if i == 146 {
        "N"@
    } else if i == 238 {
        "\u{25CB}"@
    } else if i == 239 {
        "\u{21D4}"@
    } else if i == 240 {
        "\u{21D7}"@
    } else if i == 242 {
        "\u{27EB}"@
    } else if i == 243 {
        "\u{27EA}"@
    } else if i == 244 {
        "\u{2715}"@
    } else if i == 245 {
        "\u{22A5}"@
    } else {
        seq![]
    }
}

/// The symbol of a NAG number (see `nag_text`).
pub fn nag_symbol(i: usize) -> (r: &'static str)
    ensures
        r@ == nag_text(i as int),
{
    match i {
        1 => "!",
        2 => "?",
        3 => "\u{203C}",
        4 => "\u{2047}",
        5 => "\u{2049}",
        6 => "\u{2048}",
        7 => "\u{25A1}",
        10 => "=",
        13 => "\u{221E}",
        14 => "\u{2A72}",
        15 => "\u{2A71}",
        16 => "\u{00B1}",
        17 => "\u{2213}",
        18 => "+-",
        19 => "-+",
        22 => "\u{2A00}",
        23 => "\u{2A00}",
        32 => "\u{27F3}",
        33 => "\u{27F3}",
        36 => "\u{2192}",
        37 => "\u{2192}",
        40 => "\u{2191}",
        41 => "\u{2191}",
        44 => "=/\u{221E}",
        45 => "=/\u{221E}",
        46 => "=/\u{221E}",
        47 => "=/\u{221E}",
        132 => "\u{21C6}",
        133 => "\u{21C6}",
        136 => "\u{2A01}",
        137 => "\u{2A01}",
        138 => "\u{2A01}",
        139 => "\u{2A01}",
        140 => "\u{2206}",
        141 => "\u{25BD}",
        142 => "\u{2313}",
        143 => "\u{2264}",
        145 => "RR",
        146 => "N",
        238 => "\u{25CB}",
        239 => "\u{21D4}",
        240 => "\u{21D7}",
        242 => "\u{27EB}",
        243 => "\u{27EA}",
        244 => "\u{2715}",
        245 => "\u{22A5}",
        _ => {
            proof { reveal_strlit(""); }
            ""
        },
    }
}


/// The digits of a number as `str::parse::<usize>` reads it: after an
/// optional `+`.
pub open spec fn usize_digits(p: Seq<char>) -> Seq<char> {
    if p.len() > 0 && p[0] == '+' { p.skip(1) } else { p }
}

/// A NAG number that names an entry of the symbol table.
pub open spec fn nag_number_ok(p: Seq<char>) -> bool {
    let d = usize_digits(p);
    &&& d.len() > 0
    &&& all_digits(d)
    &&& digits_value(d) <= 250
}

/// The symbols of the NAG numbers `ps`, one after another.
pub open spec fn nags_text(ps: Seq<Seq<char>>) -> Seq<char>
    decreases ps.len(),
{
    if ps.len() == 0 {
        seq![]
    } else {
        nags_text(ps.drop_last()) + nag_text(digits_value(usize_digits(ps.last())))
    }
}

/// A NAG text that can be shown: `$` (or another one-byte character) and
/// numbers of the table separated by `$`, such as `$3` or `$3$14`.
pub open spec fn nag_readable(n: Seq<char>) -> bool {
    &&& n.len() >= 1
    &&& (n[0] as int) < 128
    &&& forall|j: int| 0 <= j < pieces(n.skip(1), '$').len() ==> nag_number_ok(#[trigger] pieces(n.skip(1), '$')[j])
}

/// The symbols of a NAG text, after a space: `$1` gives " !", `$3$14` gives
/// " \u{203C}\u{2A72}".
pub fn convert_nag2symbol(nag: String) -> (r: String)
    requires
        nag_readable(nag@),
    ensures
        r@ == seq![' '] + nags_text(pieces(nag@.skip(1), '$')),
{
    let s = chars_of(nag.as_str());
    let body = crate::sanmove::sub_chars(&s, 1, s.len());
    assert(body@ == nag@.skip(1));
    let parts = split_chars(&body, '$');
    let ghost ps = pieces(body@, '$');
    let mut out: Vec<char> = Vec::new();
    out.push(' ');
    let mut i: usize = 0;
    while i < parts.len()
        invariant
            i <= parts.len(),
            parts.len() == ps.len(),
            forall|j: int| 0 <= j < parts.len() ==> (#[trigger] parts[j])@ == ps[j],
            forall|j: int| 0 <= j < ps.len() ==> nag_number_ok(#[trigger] ps[j]),
            out@ == seq![' '] + nags_text(ps.take(i as int)),
        decreases parts.len() - i,
    {
        let part = &parts[i];
        assert(part@ == ps[i as int]);
        assert(nag_number_ok(ps[i as int]));
        let start: usize = if part.len() > 0 && part[0] == '+' { 1 } else { 0 };
        assert(part@.subrange(start as int, part.len() as int) == usize_digits(part@));
        assert forall|k: int| start <= k < part.len() implies is_digit(#[trigger] part@[k]) by {
            assert(part@[k] == usize_digits(part@)[k - start]);
        }
        proof { crate::levels::lemma_value_nonneg(usize_digits(part@)); }
        let v = crate::levels::digits_exec(part, start, part.len());
        let sym = chars_of(nag_symbol(v as usize));
        crate::strutil::push_all(&mut out, &sym);
        assert(ps.take(i as int + 1).drop_last() == ps.take(i as int));
        i = i + 1;
    }
    assert(ps.take(i as int) == ps);
    string_from_chars(&out)
}

/// How far a node is indented.
pub const GTK_INDENT_LEVEL: i32 = 5;

/// The name of the text tag of a branch level; levels from 5 on share one.
pub fn get_tag_branchlevel(depth: i32) -> (r: String)
    ensures
        r@ == "branchlevel"@ + int_chars(if depth >= GTK_INDENT_LEVEL { GTK_INDENT_LEVEL as int } else { depth as int }),
{
    let mut v = chars_of("branchlevel");
    if depth >= GTK_INDENT_LEVEL {
        crate::strutil::push_int(&mut v, GTK_INDENT_LEVEL);
    } else {
        crate::strutil::push_int(&mut v, depth);
    }
    string_from_chars(&v)
}


/// The length of the game separator at `p`: `\r\n\r\n`, `\r\r` or `\n\n`,
/// tried in that order; 0 when none starts there.
pub open spec fn sep_len(s: Seq<char>, p: int) -> int {
    if 0 <= p && p + 4 <= s.len() && s[p] == '\r' && s[p + 1] == '\n' && s[p + 2] == '\r' && s[p + 3] == '\n' {
        4
    } else if 0 <= p && p + 2 <= s.len() && ((s[p] == '\r' && s[p + 1] == '\r') || (s[p] == '\n' && s[p + 1]
        == '\n')) {
        2
    } else {
        0
    }
}

/// The pieces of `s` between separators, the current piece starting at
/// `start` and the search going on at `p`.
pub open spec fn sections(s: Seq<char>, start: int, p: int) -> Seq<Seq<char>>
    decreases s.len() - p,
{
    if p < start || start < 0 || p >= s.len() {
        seq![s.subrange(start, s.len() as int)]
    } else if sep_len(s, p) > 0 {
        seq![s.subrange(start, p)] + sections(s, p + sep_len(s, p), p + sep_len(s, p))
    } else {
        sections(s, start, p + 1)
    }
}

/// The text between blank lines, in pieces.
pub open spec fn blocks(s: Seq<char>) -> Seq<Seq<char>> {
    sections(s, 0, 0)
}

/// Games of a PGN text: each header block with the move block after it.
pub open spec fn paired_games(b: Seq<Seq<char>>) -> Seq<Seq<char>> {
    Seq::new(b.len() / 2, |i: int| b[2 * i] + seq!['\n', '\n'] + b[2 * i + 1])
}

fn sep_len_exec(s: &Vec<char>, p: usize) -> (r: usize)
    requires
        p <= s.len(),
    ensures
        r == sep_len(s@, p as int),
{
    let n = s.len();
    if n - p >= 4 && s[p] == '\r' && s[p + 1] == '\n' && s[p + 2] == '\r' && s[p + 3] == '\n' {
        4
    } else if n - p >= 2 && ((s[p] == '\r' && s[p + 1] == '\r') || (s[p] == '\n' && s[p + 1] == '\n')) {
        2
    } else {
        0
    }
}

/// The blocks of a text (see `blocks`).
pub fn split_blocks(s: &Vec<char>) -> (r: Vec<Vec<char>>)
    ensures
        r.len() == blocks(s@).len(),
        forall|j: int| 0 <= j < r.len() ==> (#[trigger] r[j])@ == blocks(s@)[j],
{
    let mut r: Vec<Vec<char>> = Vec::new();
    let mut start: usize = 0;
    let mut p: usize = 0;
    while p < s.len()
        invariant
            start <= p <= s.len(),
            r@.map_values(|v: Vec<char>| v@) + sections(s@, start as int, p as int) == blocks(s@),
        decreases s.len() - p,
    {
        let k = sep_len_exec(s, p);
        if k > 0 {
            let piece = crate::sanmove::sub_chars(s, start, p);
            let ghost before = r@.map_values(|v: Vec<char>| v@);
            r.push(piece);
            assert(r@.map_values(|v: Vec<char>| v@) == before.push(piece@));
            assert(before + (seq![piece@] + sections(s@, p + k, p + k)) == before.push(piece@) + sections(s@,
                p + k, p + k));
            start = p + k;
            p = p + k;
        } else {
            p = p + 1;
        }
    }
    let piece = crate::sanmove::sub_chars(s, start, s.len());
    let ghost before = r@.map_values(|v: Vec<char>| v@);
    r.push(piece);
    assert(r@.map_values(|v: Vec<char>| v@) == before.push(piece@));
    assert(r@.map_values(|v: Vec<char>| v@) == blocks(s@));
    assert forall|j: int| 0 <= j < r.len() implies (#[trigger] r[j])@ == blocks(s@)[j] by {
        assert(r@.map_values(|v: Vec<char>| v@)[j] == r@[j]@);
    }
    r
}

/// The games of the blocks, in order.
fn pair_blocks(b: &Vec<Vec<char>>, games: &mut Vec<String>)
    ensures
        final(games).len() == old(games).len() + b.len() / 2,
        forall|j: int| 0 <= j < old(games).len() ==> #[trigger] final(games)[j] == old(games)[j],
        forall|j: int| 0 <= j < b.len() / 2 ==> (#[trigger] final(games)[old(games).len() + j])@
            == b[2 * j]@ + seq!['\n', '\n'] + b[2 * j + 1]@,
{
    let mut i: usize = 0;
    let n = b.len() / 2;
    while i < n
        invariant
            n == b.len() / 2,
            i <= n,
            games.len() == old(games).len() + i,
            forall|j: int| 0 <= j < old(games).len() ==> #[trigger] games[j] == old(games)[j],
            forall|j: int| 0 <= j < i ==> (#[trigger] games[old(games).len() + j])@ == b[2 * j]@ + seq!['\n',
                '\n'] + b[2 * j + 1]@,
        decreases n - i,
    {
        let mut g: Vec<char> = Vec::new();
        crate::strutil::push_all(&mut g, &b[2 * i]);
        g.push('\n');
        g.push('\n');
        crate::strutil::push_all(&mut g, &b[2 * i + 1]);
        assert(g@ == b[2 * i as int]@ + seq!['\n', '\n'] + b[2 * i + 1]@);
        games.push(string_from_chars(&g));
        i = i + 1;
    }
}

/// Splits a PGN text into games: the blocks between blank lines go in
/// pairs, header and moves.  With an odd number of blocks `games` is left
/// as it was.
pub fn read_games_string(filestr: String, games: &mut Vec<String>)
    ensures
        blocks(filestr@).len() % 2 != 0 ==> final(games)@ == old(games)@,
        blocks(filestr@).len() % 2 == 0 ==> {
            &&& final(games).len() == paired_games(blocks(filestr@)).len()
            &&& forall|j: int| 0 <= j < final(games).len() ==> (#[trigger] final(games)[j])@ == paired_games(
                blocks(filestr@))[j]
        },
{
    let s = chars_of(filestr.as_str());
    let b = split_blocks(&s);
    if b.len() % 2 == 0 {
        let mut fin: Vec<String> = Vec::new();
        pair_blocks(&b, &mut fin);
        assert forall|j: int| 0 <= j < fin.len() implies (#[trigger] fin[j])@ == paired_games(blocks(filestr@))[j]
            by {
            assert(fin[0 + j]@ == b[2 * j]@ + seq!['\n', '\n'] + b[2 * j + 1]@);
        }
        *games = fin;
    }
}

/// Reads the games of a PGN file's text: an empty game first, then the
/// games (see `read_games_string`).  With an odd number of blocks the text
/// is taken as malformed: two empty games are added and the result is false.
pub fn read_games_text(data: String, games: &mut Vec<String>) -> (ok: bool)
    ensures
        ok == (blocks(data@).len() % 2 == 0),
        !ok ==> {
            &&& final(games).len() == old(games).len() + 2
            &&& final(games)@.take(old(games).len() as int) == old(games)@
            &&& final(games)[old(games).len() as int]@ == EMPTY_GAME@
            &&& final(games)[old(games).len() + 1]@ == EMPTY_GAME@
        },
        ok ==> {
            &&& final(games).len() == paired_games(blocks(data@)).len() + 1
            &&& final(games)[0]@ == EMPTY_GAME@
            &&& forall|j: int| 0 <= j < paired_games(blocks(data@)).len() ==> (#[trigger] final(games)[j + 1])@
                == paired_games(blocks(data@))[j]
        },
{
    let s = chars_of(data.as_str());
    let b = split_blocks(&s);
    if b.len() % 2 != 0 {
        games.push(EMPTY_GAME.to_owned());
        games.push(EMPTY_GAME.to_owned());
        assert(games@.take(old(games)@.len() as int) =~= old(games)@);
        false
    } else {
        let mut fin: Vec<String> = Vec::new();
        fin.push(EMPTY_GAME.to_owned());
        pair_blocks(&b, &mut fin);
        assert forall|j: int| 0 <= j < paired_games(blocks(data@)).len() implies (#[trigger] fin[j + 1])@
            == paired_games(blocks(data@))[j] by {
            assert(fin[1 + j]@ == b[2 * j]@ + seq!['\n', '\n'] + b[2 * j + 1]@);
        }
        *games = fin;
        true
    }
}


/// Whether every tag pair of a game's text that fills a field holds a quote
/// (see `fields_quoted`), which `parse_pgn_data` needs.
pub fn game_fields_quoted(pgn: &String) -> (r: bool)
    ensures
        r == fields_quoted(pieces(pgn@, '\n')),
{
    let s = chars_of(pgn.as_str());
    let lines = split_chars(&s, '\n');
    let ghost ls = pieces(pgn@, '\n');
    let mut i: usize = 0;
    while i < lines.len()
        invariant
            i <= lines.len(),
            lines.len() == ls.len(),
            ls == pieces(pgn@, '\n'),
            forall|j: int| 0 <= j < lines.len() ==> (#[trigger] lines[j])@ == ls[j],
            forall|j: int| 0 <= j < i && 0 <= #[trigger] line_kind(cr_to_space(ls[j])) <= 9 ==> cr_to_space(ls[j]).contains(
                '"'),
        decreases lines.len() - i,
    {
        let t = cr_to_space_exec(&lines[i]);
        assert(t@ == cr_to_space(ls[i as int]));
        let k = line_kind_exec(&t);
        if k <= 9 {
            let ps = split_chars(&t, '"');
            proof { lemma_pieces_len(t@, '"'); }
            if ps.len() < 2 {
                assert(!t@.contains('"'));
                assert(!fields_quoted(ls)) by {
                    assert(0 <= line_kind(cr_to_space(ls[i as int])) <= 9);
                    assert(!cr_to_space(ls[i as int]).contains('"'));
                }
                return false;
            }
        }
        i = i + 1;
    }
    true
}

}
