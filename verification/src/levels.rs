use vstd::prelude::*;
use crate::fen::{is_digit, digits_value};
use crate::sanmove::is_ascii_text;
use crate::strutil::{chars_of, string_from_chars, push_int, int_chars, decimal, digit_char};

verus! {

// Node indices of the move tree.  The main line is "1z", "2z", ...; a
// variation that starts beside the move with index s is s followed by its
// number and "n", and its moves continue with "1z", "2z", ... after that:
// "3z1n1z" is the first move of the first variation beside "3z".

/// The start of the run of digits that ends just before position `end`.
pub open spec fn digit_run_start(s: Seq<char>, end: int) -> int
    decreases end,
{
    if end <= 0 || end > s.len() || !is_digit(s[end - 1]) { end } else { digit_run_start(s, end - 1) }
}

/// `s` ends with digits and then `c`.
pub open spec fn ends_with_number(s: Seq<char>, c: char) -> bool {
    s.len() >= 2 && s.last() == c && is_digit(s[s.len() - 2])
}

/// The start of the number before the last character.
pub open spec fn number_start(s: Seq<char>) -> int {
    digit_run_start(s, s.len() - 1)
}

/// The number before the last character.
pub open spec fn last_number(s: Seq<char>) -> int {
    digits_value(s.subrange(number_start(s), s.len() - 1))
}

proof fn lemma_digit_run(s: Seq<char>, end: int)
    requires
        0 <= end <= s.len(),
    ensures
        0 <= digit_run_start(s, end) <= end,
        forall|i: int| digit_run_start(s, end) <= i < end ==> is_digit(#[trigger] s[i]),
        digit_run_start(s, end) > 0 ==> !is_digit(s[digit_run_start(s, end) - 1]),
    decreases end,
{
    if end > 0 && is_digit(s[end - 1]) {
        lemma_digit_run(s, end - 1);
    }
}

pub fn root_node() -> (s: String)
    ensures
        s@ == seq!['1', 'z'],
{
    let mut v: Vec<char> = Vec::new();
    v.push('1');
    v.push('z');
    string_from_chars(&v)
}

/// The start of the digit run ending before `end`.
fn digit_run_start_exec(s: &Vec<char>, end: usize) -> (r: usize)
    requires
        end <= s.len(),
    ensures
        r == digit_run_start(s@, end as int),
{
    let mut p = end;
    while p > 0 && '0' <= s[p - 1] && s[p - 1] <= '9'
        invariant
            p <= end,
            end <= s.len(),
            digit_run_start(s@, p as int) == digit_run_start(s@, end as int),
        decreases p,
    {
        p = p - 1;
    }
    p
}

fn ends_with_number_exec(s: &Vec<char>, c: char) -> (r: bool)
    ensures
        r == ends_with_number(s@, c),
{
    let n = s.len();
    n >= 2 && s[n - 1] == c && '0' <= s[n - 2] && s[n - 2] <= '9'
}

/// The value of the digits `s[a..b]`, which fits an `i32`.
pub(crate) fn digits_exec(s: &Vec<char>, a: usize, b: usize) -> (r: i32)
    requires
        a <= b <= s.len(),
        forall|i: int| a <= i < b ==> is_digit(#[trigger] s@[i]),
        digits_value(s@.subrange(a as int, b as int)) <= i32::MAX,
    ensures
        r == digits_value(s@.subrange(a as int, b as int)),
{
    let mut acc: i64 = 0;
    let mut i = a;
    while i < b
        invariant
            a <= i <= b,
            b <= s.len(),
            forall|j: int| a <= j < b ==> is_digit(#[trigger] s@[j]),
            digits_value(s@.subrange(a as int, b as int)) <= i32::MAX,
            acc == digits_value(s@.subrange(a as int, i as int)),
            0 <= acc <= i32::MAX,
        decreases b - i,
    {
        assert(is_digit(s@[i as int]));
        assert(s@.subrange(a as int, i as int + 1).drop_last() =~= s@.subrange(a as int, i as int));
        proof { lemma_prefix_value(s@.subrange(a as int, b as int), (i - a + 1) as int); }
        assert(s@.subrange(a as int, b as int).take((i - a + 1) as int) =~= s@.subrange(a as int, i as int + 1));
        acc = acc * 10 + (s[i] as u32 - '0' as u32) as i64;
        i = i + 1;
    }
    acc as i32
}

/// A prefix of a number is not bigger.
pub(crate) proof fn lemma_prefix_value(s: Seq<char>, k: int)
    requires
        forall|i: int| 0 <= i < s.len() ==> is_digit(#[trigger] s[i]),
        0 <= k <= s.len(),
    ensures
        0 <= digits_value(s.take(k)) <= digits_value(s),
    decreases s.len() - k,
{
    lemma_value_nonneg(s.take(k));
    if k < s.len() {
        assert(s.drop_last().take(k) =~= s.take(k));
        lemma_prefix_value(s.drop_last(), k);
        lemma_value_nonneg(s.drop_last());
        assert(is_digit(s[s.len() - 1]));
    } else {
        assert(s.take(k) =~= s);
    }
}

pub(crate) proof fn lemma_value_nonneg(s: Seq<char>)
    requires
        forall|i: int| 0 <= i < s.len() ==> is_digit(#[trigger] s[i]),
    ensures
        digits_value(s) >= 0,
    decreases s.len(),
{
    if s.len() > 0 {
        assert(is_digit(s[s.len() - 1]));
        lemma_value_nonneg(s.drop_last());
    }
}

/// The index of the next move of the line: the last number before "z"
/// plus one, or "1z" appended.
pub open spec fn next_mainline(s: Seq<char>) -> Seq<char> {
    if ends_with_number(s, 'z') {
        s.take(number_start(s)) + int_chars(last_number(s) + 1) + seq!['z']
    } else {
        s + seq!['1', 'z']
    }
}

/// The index text can be read: ASCII, and a number before a final "z"
/// that can be counted up within `i32`.
pub open spec fn mainline_ok(s: Seq<char>) -> bool {
    is_ascii_text(s) && (ends_with_number(s, 'z') ==> last_number(s) < i32::MAX)
}

fn next_mainline_chars(s: &Vec<char>) -> (v: Vec<char>)
    requires
        mainline_ok(s@),
    ensures
        v@ == next_mainline(s@),
{
    let n = s.len();
    if ends_with_number_exec(s, 'z') {
        let p = digit_run_start_exec(s, n - 1);
        proof { lemma_digit_run(s@, n - 1); }
        let val = digits_exec(s, p, n - 1);
        let mut v = crate::sanmove::sub_chars(s, 0, p);
        push_int(&mut v, val + 1);
        v.push('z');
        v
    } else {
        let mut v = crate::sanmove::sub_chars(s, 0, n);
        v.push('1');
        v.push('z');
        assert(v@ =~= s@ + seq!['1', 'z']);
        v
    }
}

pub fn get_next_mainline_indx(node_indx: String) -> (r: String)
    requires
        mainline_ok(node_indx@),
    ensures
        r@ == next_mainline(node_indx@),
{
    let s = chars_of(node_indx.as_str());
    let v = next_mainline_chars(&s);
    string_from_chars(&v)
}

/// The index of the next move (`num_sibling` 0) or of the variation
/// `num_sibling` beside the node.
pub fn get_next_sibling_indx(node_indx: String, num_sibling: i32) -> (r: String)
    requires
        num_sibling == 0 ==> mainline_ok(node_indx@),
    ensures
        r@ == (if num_sibling == 0 { next_mainline(node_indx@) } else {
            node_indx@ + int_chars(num_sibling as int) + seq!['n']
        }),
{
    if num_sibling == 0 {
        get_next_mainline_indx(node_indx)
    } else {
        let mut v = chars_of(node_indx.as_str());
        push_int(&mut v, num_sibling);
        v.push('n');
        string_from_chars(&v)
    }
}

/// The variation number at the end of an index; 0 on the main line.
pub open spec fn child_indx(s: Seq<char>) -> int {
    if ends_with_number(s, 'n') { last_number(s) } else { 0 }
}

pub fn get_child_indx(node_indx: String) -> (r: i32)
    requires
        is_ascii_text(node_indx@),
        ends_with_number(node_indx@, 'n') ==> last_number(node_indx@) <= i32::MAX,
    ensures
        r == child_indx(node_indx@),
{
    let s = chars_of(node_indx.as_str());
    let n = s.len();
    if ends_with_number_exec(&s, 'n') {
        let p = digit_run_start_exec(&s, n - 1);
        proof { lemma_digit_run(s@, n - 1); }
        digits_exec(&s, p, n - 1)
    } else {
        0
    }
}

/// The index is on the main line of the game: digits and "z".
pub open spec fn absolute_mainline(s: Seq<char>) -> bool {
    ends_with_number(s, 'z') && number_start(s) == 0
}

pub fn is_absolute_mainline(node_indx: String) -> (r: bool)
    requires
        is_ascii_text(node_indx@),
    ensures
        r == absolute_mainline(node_indx@),
{
    let s = chars_of(node_indx.as_str());
    let n = s.len();
    if ends_with_number_exec(&s, 'z') {
        digit_run_start_exec(&s, n - 1) == 0
    } else {
        false
    }
}


/// `s` without its final number and `c`, when it ends so.
pub open spec fn strip_number(s: Seq<char>, c: char) -> Seq<char> {
    if ends_with_number(s, c) { s.take(number_start(s)) } else { s }
}

/// The first node of the line that a variation branches from: for a node
/// inside a variation (its index holds an "n"), drop its move number, then
/// its variation number; when that leaves another variation's index, the
/// first move of the variation; else the main-line move after the one the
/// variation stands beside.
pub open spec fn branch_node(s: Seq<char>) -> Option<Seq<char>> {
    if !s.contains('n') {
        None
    } else {
        let parent = strip_number(s, 'z');
        let stem = strip_number(parent, 'n');
        if stem.len() > 0 && stem.last() == 'n' {
            Some(if ends_with_number(parent, 'n') { parent.take(number_start(parent)) + seq!['1', 'z'] } else {
                parent
            })
        } else {
            Some(stem.take(number_start(stem)) + int_chars(last_number(stem) + 1) + seq!['z'])
        }
    }
}

/// The index can be read by `get_branch_node`: ASCII, and when the stem
/// does not end a variation it ends with a move number that can be counted up.
pub open spec fn branch_ok(s: Seq<char>) -> bool {
    let stem = strip_number(strip_number(s, 'z'), 'n');
    &&& is_ascii_text(s)
    &&& s.contains('n') && !(stem.len() > 0 && stem.last() == 'n') ==> ends_with_number(stem, 'z')
        && last_number(stem) < i32::MAX
}

fn strip_number_exec(s: &Vec<char>, c: char) -> (v: Vec<char>)
    ensures
        v@ == strip_number(s@, c),
{
    let n = s.len();
    if ends_with_number_exec(s, c) {
        let p = digit_run_start_exec(s, n - 1);
        proof { lemma_digit_run(s@, n - 1); }
        crate::sanmove::sub_chars(s, 0, p)
    } else {
        let v = crate::sanmove::sub_chars(s, 0, n);
        assert(v@ =~= s@);
        v
    }
}

pub fn get_branch_node(selected_node: String) -> (r: Option<String>)
    requires
        branch_ok(selected_node@),
    ensures
        match r {
            Some(t) => branch_node(selected_node@) == Some(t@),
            None => branch_node(selected_node@) is None,
        },
{
    let s = chars_of(selected_node.as_str());
    let mut has_n = false;
    let mut i: usize = 0;
    while i < s.len()
        invariant
            i <= s.len(),
            has_n == (exists|j: int| 0 <= j < i && s@[j] == 'n'),
        decreases s.len() - i,
    {
        if s[i] == 'n' {
            has_n = true;
        }
        i = i + 1;
    }
    assert(has_n == s@.contains('n'));
    if !has_n {
        return None;
    }
    let parent = strip_number_exec(&s, 'z');
    let stem = strip_number_exec(&parent, 'n');
    let m = stem.len();
    if m > 0 && stem[m - 1] == 'n' {
        if ends_with_number_exec(&parent, 'n') {
            let mut v = strip_number_exec(&parent, 'n');
            v.push('1');
            v.push('z');
            Some(string_from_chars(&v))
        } else {
            Some(string_from_chars(&parent))
        }
    } else {
        let p = digit_run_start_exec(&stem, m - 1);
        proof { lemma_digit_run(stem@, m - 1); }
        let val = digits_exec(&stem, p, m - 1);
        let mut v = crate::sanmove::sub_chars(&stem, 0, p);
        push_int(&mut v, val + 1);
        v.push('z');
        Some(string_from_chars(&v))
    }
}


/// Whether the digits `s[a..b]` are worth less than `limit`.
fn digits_below(s: &Vec<char>, a: usize, b: usize, limit: u64) -> (r: bool)
    requires
        a <= b <= s.len(),
        forall|i: int| a <= i < b ==> is_digit(#[trigger] s@[i]),
        0 < limit <= 0x1_0000_0000,
    ensures
        r == (digits_value(s@.subrange(a as int, b as int)) < limit),
{
    let ghost whole = s@.subrange(a as int, b as int);
    let mut acc: u64 = 0;
    let mut i = a;
    while i < b
        invariant
            a <= i <= b,
            b <= s.len(),
            limit <= 0x1_0000_0000,
            whole == s@.subrange(a as int, b as int),
            forall|j: int| a <= j < b ==> is_digit(#[trigger] s@[j]),
            acc == digits_value(s@.subrange(a as int, i as int)),
            acc < limit,
        decreases b - i,
    {
        assert(is_digit(s@[i as int]));
        assert(s@.subrange(a as int, i as int + 1).drop_last() =~= s@.subrange(a as int, i as int));
        assert(whole.take((i - a + 1) as int) =~= s@.subrange(a as int, i as int + 1));
        proof { lemma_prefix_value(whole, (i - a + 1) as int); }
        acc = acc * 10 + (s[i] as u32 - '0' as u32) as u64;
        i = i + 1;
        if acc >= limit {
            return false;
        }
    }
    assert(s@.subrange(a as int, i as int) == whole);
    true
}

/// Whether the index text can be counted on (see `mainline_ok`).
pub fn mainline_ok_exec(s: &String) -> (r: bool)
    ensures
        r == mainline_ok(s@),
{
    let v = chars_of(s.as_str());
    if !crate::sanmove::ascii_exec(&v) {
        return false;
    }
    let n = v.len();
    if ends_with_number_exec(&v, 'z') {
        let p = digit_run_start_exec(&v, n - 1);
        proof { lemma_digit_run(v@, n - 1); }
        digits_below(&v, p, n - 1, 0x7fff_ffff)
    } else {
        true
    }
}


/// Whether `get_child_indx` can read the index.
pub fn child_ok_exec(s: &String) -> (r: bool)
    ensures
        r == (is_ascii_text(s@) && (ends_with_number(s@, 'n') ==> last_number(s@) <= i32::MAX)),
{
    let v = chars_of(s.as_str());
    if !crate::sanmove::ascii_exec(&v) {
        return false;
    }
    let n = v.len();
    if ends_with_number_exec(&v, 'n') {
        let p = digit_run_start_exec(&v, n - 1);
        proof { lemma_digit_run(v@, n - 1); }
        digits_below(&v, p, n - 1, 0x8000_0000)
    } else {
        true
    }
}

/// The decimal digits of a number read back give the number.
pub(crate) proof fn lemma_decimal_value(n: nat)
    ensures
        decimal(n).len() >= 1,
        forall|i: int| 0 <= i < decimal(n).len() ==> is_digit(#[trigger] decimal(n)[i]),
        digits_value(decimal(n)) == n,
    decreases n,
{
    let d = digit_char(n % 10);
    assert(is_digit(d) && d as int - '0' as int == n % 10);
    if n >= 10 {
        lemma_decimal_value(n / 10);
        let t = decimal(n / 10);
        assert(decimal(n) == t.push(d));
        assert(decimal(n).drop_last() =~= t);
        assert((n / 10) * 10 + n % 10 == n) by (nonlinear_arith);
        assert(digits_value(decimal(n)) == digits_value(t) * 10 + (d as int - '0' as int));
        assert forall|i: int| 0 <= i < decimal(n).len() implies is_digit(#[trigger] decimal(n)[i]) by {
            if i < t.len() { assert(decimal(n)[i] == t[i]); }
        }
    } else {
        assert(decimal(n).drop_last() =~= Seq::<char>::empty());
        assert(n % 10 == n);
        assert(digits_value(decimal(n)) == digits_value(Seq::<char>::empty()) * 10 + (d as int - '0' as int));
    }
}

/// A number written after a text that does not end with a digit, and then
/// `c`, is read back as that number.
proof fn lemma_number_after(s: Seq<char>, n: nat, c: char)
    requires
        s.len() == 0 || !is_digit(s.last()),
        !is_digit(c),
    ensures
        ends_with_number(s + decimal(n) + seq![c], c),
        number_start(s + decimal(n) + seq![c]) == s.len(),
        last_number(s + decimal(n) + seq![c]) == n,
{
    lemma_decimal_value(n);
    let d = decimal(n);
    let t = s + d + seq![c];
    assert(t.len() == s.len() + d.len() + 1);
    assert(t.last() == c);
    assert(t[t.len() - 2] == d[d.len() - 1]);
    assert forall|e: int| s.len() <= e <= s.len() + d.len() implies digit_run_start(t, e) == s.len() by {
        lemma_run_down(t, s.len() as int, e, s.len() as int + d.len());
    }
    assert(t.subrange(s.len() as int, t.len() - 1) =~= d);
}

/// Inside a run of digits that starts at `start`, the run found from any
/// end reaches back to `start`.
proof fn lemma_run_down(t: Seq<char>, start: int, e: int, top: int)
    requires
        0 <= start <= e <= top <= t.len(),
        forall|i: int| start <= i < top ==> is_digit(#[trigger] t[i]),
        start == 0 || !is_digit(t[start - 1]),
    ensures
        digit_run_start(t, e) == start,
    decreases e,
{
    if e > start {
        assert(is_digit(t[e - 1]));
        lemma_run_down(t, start, e - 1, top);
    }
}

/// The variation number of the index made for the `k`-th child of a node
/// is `k`: the next move (`k` 0) is on the main line of its variation, and
/// `get_child_indx(get_next_sibling_indx(s, k))` gives back `k`.  Node
/// indices end with "z" or "n", or are empty, so the number is read alone.
pub proof fn law_sibling_index_read_back(s: Seq<char>, k: int)
    requires
        0 <= k <= i32::MAX,
        k > 0 ==> s.len() == 0 || !is_digit(s.last()),
    ensures
        child_indx(if k == 0 { next_mainline(s) } else { s + int_chars(k) + seq!['n'] }) == k,
{
    if k > 0 {
        lemma_number_after(s, k as nat, 'n');
    } else {
        let t = next_mainline(s);
        if ends_with_number(s, 'z') {
            assert(t.last() == 'z');
        } else {
            assert(t.last() == 'z');
        }
    }
}

/// The next move after a main-line move of the game is a main-line move,
/// with its number one more: "12z" is followed by "13z".
pub proof fn law_mainline_counts_up(s: Seq<char>)
    requires
        absolute_mainline(s),
        last_number(s) < i32::MAX,
    ensures
        absolute_mainline(next_mainline(s)),
        last_number(next_mainline(s)) == last_number(s) + 1,
{
    lemma_digit_run(s, s.len() - 1);
    lemma_value_nonneg(s.subrange(number_start(s), s.len() - 1));
    let n = (last_number(s) + 1) as nat;
    assert(s.take(0) =~= Seq::<char>::empty());
    assert(next_mainline(s) =~= Seq::<char>::empty() + decimal(n) + seq!['z']);
    lemma_number_after(Seq::<char>::empty(), n, 'z');
}

/// The variation number read from an index is not negative.
pub proof fn lemma_child_indx_nonneg(s: Seq<char>)
    ensures
        child_indx(s) >= 0,
{
    if ends_with_number(s, 'n') {
        lemma_digit_run(s, s.len() - 1);
        lemma_value_nonneg(s.subrange(number_start(s), s.len() - 1));
    }
}

/// Whether `get_branch_node` can read the index (see `branch_ok`).
pub fn branch_ok_exec(s: &String) -> (r: bool)
    ensures
        r == branch_ok(s@),
{
    let v = chars_of(s.as_str());
    if !crate::sanmove::ascii_exec(&v) {
        return false;
    }
    let mut has_n = false;
    let mut i: usize = 0;
    while i < v.len()
        invariant
            i <= v.len(),
            has_n == (exists|j: int| 0 <= j < i && v@[j] == 'n'),
        decreases v.len() - i,
    {
        if v[i] == 'n' {
            has_n = true;
        }
        i = i + 1;
    }
    assert(has_n == v@.contains('n'));
    let parent = strip_number_exec(&v, 'z');
    let stem = strip_number_exec(&parent, 'n');
    let m = stem.len();
    if has_n && !(m > 0 && stem[m - 1] == 'n') {
        if !ends_with_number_exec(&stem, 'z') {
            return false;
        }
        let p = digit_run_start_exec(&stem, m - 1);
        proof { lemma_digit_run(stem@, m - 1); }
        digits_below(&stem, p, m - 1, 0x7fff_ffff)
    } else {
        true
    }
}

/// The next move's index differs from the move's own.
pub proof fn lemma_next_differs(k: Seq<char>)
    ensures
        next_mainline(k) != k,
{
    let n = next_mainline(k);
    if ends_with_number(k, 'z') {
        lemma_digit_run(k, k.len() - 1);
        let ns = number_start(k);
        let digits = k.subrange(ns, k.len() - 1);
        lemma_value_nonneg(digits);
        let v = last_number(k);
        lemma_decimal_value((v + 1) as nat);
        let d = decimal((v + 1) as nat);
        assert(n == k.take(ns) + d + seq!['z']);
        if n == k {
            assert(n.len() == k.len());
            assert(d.len() == k.len() - 1 - ns);
            assert(n.subrange(ns, n.len() - 1) =~= d);
            assert(digits == d);
        }
    } else {
        assert(n.len() == k.len() + 2);
    }
}

}
