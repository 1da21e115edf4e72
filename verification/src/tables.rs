use vstd::prelude::*;
use crate::bitops::{has_bit, lemma_bit_or, lemma_bit_single, lemma_bit_zero, lemma_bit_xor};

verus! {

// Attack tables of the move generator, built once by `data_init`.
// Files and ranks are numbered 1..8; square = (rank - 1) * 8 + file - 1.

/// Bit of the square on `file` and `rank` (the `BITSET[BOARDINDEX[file][rank]]` of the tables).
pub open spec fn sqbit(file: int, rank: int) -> u64 {
    1u64 << (((rank - 1) * 8 + file - 1) as u64)
}

pub open spec fn onboard(file: int, rank: int) -> bool {
    1 <= file <= 8 && 1 <= rank <= 8
}

pub open spec fn sfile(sq: int) -> int {
    sq % 8 + 1
}

pub open spec fn srank(sq: int) -> int {
    sq / 8 + 1
}

/// Adds the square `(df, dr)` away from `sq` when it is on the board.
pub open spec fn add_jump(acc: u64, sq: int, df: int, dr: int) -> u64 {
    let f = sfile(sq) + df;
    let r = srank(sq) + dr;
    if onboard(f, r) { acc | sqbit(f, r) } else { acc }
}

fn add_jump_exec(acc: u64, sq: usize, df: i32, dr: i32) -> (r: u64)
    requires
        sq < 64,
        -2 <= df <= 2,
        -2 <= dr <= 2,
    ensures
        r == add_jump(acc, sq as int, df as int, dr as int),
{
    let f: i32 = (sq % 8) as i32 + 1 + df;
    let r: i32 = (sq / 8) as i32 + 1 + dr;
    if 1 <= f && f <= 8 && 1 <= r && r <= 8 {
        acc | (1u64 << (((r - 1) * 8 + f - 1) as u64))
    } else {
        acc
    }
}

// Table kinds for the 64-entry tables.
pub const WPAWN_ATTACKS: u8 = 0;
pub const WPAWN_MOVES: u8 = 1;
pub const WPAWN_DOUBLE: u8 = 2;
pub const BPAWN_ATTACKS: u8 = 3;
pub const BPAWN_MOVES: u8 = 4;
pub const BPAWN_DOUBLE: u8 = 5;
pub const KNIGHT: u8 = 6;
pub const KING: u8 = 7;
pub const RANK_MASK: u8 = 8;
pub const FILE_MASK: u8 = 9;
pub const FILE_MAGIC: u8 = 10;
pub const DIAGA8H1_MASK: u8 = 11;
pub const DIAGA8H1_MAGIC: u8 = 12;
pub const DIAGA1H8_MASK: u8 = 13;
pub const DIAGA1H8_MAGIC: u8 = 14;

pub open spec fn file_magic_const(i: int) -> u64 {
    if i == 0 { 0x8040201008040200 } else if i == 1 { 0x4020100804020100 }
    else if i == 2 { 0x2010080402010080 } else if i == 3 { 0x1008040201008040 }
    else if i == 4 { 0x0804020100804020 } else if i == 5 { 0x0402010080402010 }
    else if i == 6 { 0x0201008040201008 } else { 0x0100804020100804 }
}

pub open spec fn diaga8h1_magic_const(i: int) -> u64 {
    if i <= 1 { 0x0 } else if i <= 7 { 0x0101010101010100 } else if i == 8 { 0x0080808080808080 }
    else if i == 9 { 0x0040404040404040 } else if i == 10 { 0x0020202020202020 }
    else if i == 11 { 0x0010101010101010 } else if i == 12 { 0x0008080808080808 } else { 0x0 }
}

pub open spec fn diaga1h8_magic_const(i: int) -> u64 {
    if i <= 1 { 0x0 } else if i <= 7 { 0x0101010101010100 } else if i == 8 { 0x8080808080808000 }
    else if i == 9 { 0x4040404040400000 } else if i == 10 { 0x2020202020000000 }
    else if i == 11 { 0x1010101000000000 } else if i == 12 { 0x0808080000000000 } else { 0x0 }
}

/// Squares of an a8-h1 diagonal from index `s` on (the 6-bit mask loop).
pub open spec fn diag8_mask_from(d: int, s: int, acc: u64) -> u64
    decreases 17 - s,
{
    if d < 10 {
        if s >= d - 1 || s > 16 { acc } else { diag8_mask_from(d, s + 1, acc | sqbit(s, d - s)) }
    } else {
        if s >= 17 - d || s > 16 { acc } else { diag8_mask_from(d, s + 1, acc | sqbit(d + s - 9, 9 - s)) }
    }
}

/// Squares of an a1-h8 diagonal from index `s` on (the 6-bit mask loop).
pub open spec fn diag1_mask_from(d: int, s: int, acc: u64) -> u64
    decreases 17 - s,
{
    if d > -1 {
        if s >= 8 - d || s > 16 { acc } else { diag1_mask_from(d, s + 1, acc | sqbit(d + s, s)) }
    } else {
        if s >= 8 + d || s > 16 { acc } else { diag1_mask_from(d, s + 1, acc | sqbit(s, s - d)) }
    }
}

/// Entry `sq` of the 64-entry table of the given kind.
pub open spec fn table64_spec(kind: u8, sq: int) -> u64 {
    let f = sfile(sq);
    let r = srank(sq);
    if kind == WPAWN_ATTACKS {
        add_jump(add_jump(0, sq, -1, 1), sq, 1, 1)
    } else if kind == WPAWN_MOVES {
        add_jump(0, sq, 0, 1)
    } else if kind == WPAWN_DOUBLE {
        if r == 2 { add_jump(0, sq, 0, 2) } else { 0 }
    } else if kind == BPAWN_ATTACKS {
        add_jump(add_jump(0, sq, -1, -1), sq, 1, -1)
    } else if kind == BPAWN_MOVES {
        add_jump(0, sq, 0, -1)
    } else if kind == BPAWN_DOUBLE {
        if r == 7 { add_jump(0, sq, 0, -2) } else { 0 }
    } else if kind == KNIGHT {
        add_jump(add_jump(add_jump(add_jump(add_jump(add_jump(add_jump(add_jump(0, sq, -2, 1),
            sq, -1, 2), sq, 1, 2), sq, 2, 1), sq, 2, -1), sq, 1, -2), sq, -1, -2), sq, -2, -1)
    } else if kind == KING {
        add_jump(add_jump(add_jump(add_jump(add_jump(add_jump(add_jump(add_jump(0, sq, -1, 0),
            sq, -1, 1), sq, 0, 1), sq, 1, 1), sq, 1, 0), sq, 1, -1), sq, 0, -1), sq, -1, -1)
    } else if kind == RANK_MASK {
        (sqbit(2, r) | sqbit(3, r) | sqbit(4, r)) | (sqbit(5, r) | sqbit(6, r) | sqbit(7, r))
    } else if kind == FILE_MASK {
        (sqbit(f, 2) | sqbit(f, 3) | sqbit(f, 4)) | (sqbit(f, 5) | sqbit(f, 6) | sqbit(f, 7))
    } else if kind == FILE_MAGIC {
        file_magic_const(f - 1)
    } else if kind == DIAGA8H1_MASK {
        diag8_mask_from(f + r, 2, 0)
    } else if kind == DIAGA8H1_MAGIC {
        diaga8h1_magic_const(f + r - 2)
    } else if kind == DIAGA1H8_MASK {
        diag1_mask_from(f - r, 2, 0)
    } else {
        diaga1h8_magic_const(f - r + 7)
    }
}

fn file_magic_exec(i: i32) -> (m: u64)
    ensures
        m == file_magic_const(i as int),
{
    if i == 0 { 0x8040201008040200 } else if i == 1 { 0x4020100804020100 }
    else if i == 2 { 0x2010080402010080 } else if i == 3 { 0x1008040201008040 }
    else if i == 4 { 0x0804020100804020 } else if i == 5 { 0x0402010080402010 }
    else if i == 6 { 0x0201008040201008 } else { 0x0100804020100804 }
}

fn diaga8h1_magic_exec(i: i32) -> (m: u64)
    ensures
        m == diaga8h1_magic_const(i as int),
{
    if i <= 1 { 0x0 } else if i <= 7 { 0x0101010101010100 } else if i == 8 { 0x0080808080808080 }
    else if i == 9 { 0x0040404040404040 } else if i == 10 { 0x0020202020202020 }
    else if i == 11 { 0x0010101010101010 } else if i == 12 { 0x0008080808080808 } else { 0x0 }
}

fn diaga1h8_magic_exec(i: i32) -> (m: u64)
    ensures
        m == diaga1h8_magic_const(i as int),
{
    if i <= 1 { 0x0 } else if i <= 7 { 0x0101010101010100 } else if i == 8 { 0x8080808080808000 }
    else if i == 9 { 0x4040404040400000 } else if i == 10 { 0x2020202020000000 }
    else if i == 11 { 0x1010101000000000 } else if i == 12 { 0x0808080000000000 } else { 0x0 }
}

fn sqbit_exec(file: i32, rank: i32) -> (b: u64)
    requires
        onboard(file as int, rank as int),
    ensures
        b == sqbit(file as int, rank as int),
{
    1u64 << (((rank - 1) * 8 + file - 1) as u64)
}

fn diag8_mask_exec(d: i32) -> (m: u64)
    requires
        2 <= d <= 16,
    ensures
        m == diag8_mask_from(d as int, 2, 0),
{
    let mut acc: u64 = 0;
    let mut s: i32 = 2;
    if d < 10 {
        while s < d - 1
            invariant
                2 <= d < 10,
                2 <= s <= 16,
                diag8_mask_from(d as int, s as int, acc) == diag8_mask_from(d as int, 2, 0),
            decreases d - s,
        {
            acc = acc | sqbit_exec(s, d - s);
            s = s + 1;
        }
    } else {
        while s < 17 - d
            invariant
                10 <= d <= 16,
                2 <= s <= 16,
                diag8_mask_from(d as int, s as int, acc) == diag8_mask_from(d as int, 2, 0),
            decreases 17 - d - s,
        {
            acc = acc | sqbit_exec(d + s - 9, 9 - s);
            s = s + 1;
        }
    }
    acc
}

fn diag1_mask_exec(d: i32) -> (m: u64)
    requires
        -7 <= d <= 7,
    ensures
        m == diag1_mask_from(d as int, 2, 0),
{
    let mut acc: u64 = 0;
    let mut s: i32 = 2;
    if d > -1 {
        while s < 8 - d
            invariant
                0 <= d <= 7,
                2 <= s <= 16,
                diag1_mask_from(d as int, s as int, acc) == diag1_mask_from(d as int, 2, 0),
            decreases 8 - d - s,
        {
            acc = acc | sqbit_exec(d + s, s);
            s = s + 1;
        }
    } else {
        while s < 8 + d
            invariant
                -7 <= d < 0,
                2 <= s <= 16,
                diag1_mask_from(d as int, s as int, acc) == diag1_mask_from(d as int, 2, 0),
            decreases 8 + d - s,
        {
            acc = acc | sqbit_exec(s, s - d);
            s = s + 1;
        }
    }
    acc
}

fn table64_entry(kind: u8, sq: usize) -> (e: u64)
    requires
        sq < 64,
        kind <= 14,
    ensures
        e == table64_spec(kind, sq as int),
{
    let f: i32 = (sq % 8) as i32 + 1;
    let r: i32 = (sq / 8) as i32 + 1;
    if kind == WPAWN_ATTACKS {
        add_jump_exec(add_jump_exec(0, sq, -1, 1), sq, 1, 1)
    } else if kind == WPAWN_MOVES {
        add_jump_exec(0, sq, 0, 1)
    } else if kind == WPAWN_DOUBLE {
        if r == 2 { add_jump_exec(0, sq, 0, 2) } else { 0 }
    } else if kind == BPAWN_ATTACKS {
        add_jump_exec(add_jump_exec(0, sq, -1, -1), sq, 1, -1)
    } else if kind == BPAWN_MOVES {
        add_jump_exec(0, sq, 0, -1)
    } else if kind == BPAWN_DOUBLE {
        if r == 7 { add_jump_exec(0, sq, 0, -2) } else { 0 }
    } else if kind == KNIGHT {
        let mut a = add_jump_exec(0, sq, -2, 1);
        a = add_jump_exec(a, sq, -1, 2);
        a = add_jump_exec(a, sq, 1, 2);
        a = add_jump_exec(a, sq, 2, 1);
        a = add_jump_exec(a, sq, 2, -1);
        a = add_jump_exec(a, sq, 1, -2);
        a = add_jump_exec(a, sq, -1, -2);
        add_jump_exec(a, sq, -2, -1)
    } else if kind == KING {
        let mut a = add_jump_exec(0, sq, -1, 0);
        a = add_jump_exec(a, sq, -1, 1);
        a = add_jump_exec(a, sq, 0, 1);
        a = add_jump_exec(a, sq, 1, 1);
        a = add_jump_exec(a, sq, 1, 0);
        a = add_jump_exec(a, sq, 1, -1);
        a = add_jump_exec(a, sq, 0, -1);
        add_jump_exec(a, sq, -1, -1)
    } else if kind == RANK_MASK {
        (sqbit_exec(2, r) | sqbit_exec(3, r) | sqbit_exec(4, r)) | (sqbit_exec(5, r) | sqbit_exec(6, r) | sqbit_exec(7, r))
    } else if kind == FILE_MASK {
        (sqbit_exec(f, 2) | sqbit_exec(f, 3) | sqbit_exec(f, 4)) | (sqbit_exec(f, 5) | sqbit_exec(f, 6) | sqbit_exec(f, 7))
    } else if kind == FILE_MAGIC {
        file_magic_exec(f - 1)
    } else if kind == DIAGA8H1_MASK {
        diag8_mask_exec(f + r)
    } else if kind == DIAGA8H1_MAGIC {
        diaga8h1_magic_exec(f + r - 2)
    } else if kind == DIAGA1H8_MASK {
        diag1_mask_exec(f - r)
    } else {
        diaga1h8_magic_exec(f - r + 7)
    }
}

/// The 64-entry table of the given kind.
pub fn build_table64(kind: u8) -> (t: Vec<u64>)
    requires
        kind <= 14,
    ensures
        t.len() == 64,
        forall|i: int| 0 <= i < 64 ==> #[trigger] t[i] == table64_spec(kind, i),
{
    let mut t: Vec<u64> = Vec::new();
    let mut sq: usize = 0;
    while sq < 64
        invariant
            kind <= 14,
            sq <= 64,
            t.len() == sq,
            forall|i: int| 0 <= i < sq ==> #[trigger] t[i] == table64_spec(kind, i),
        decreases 64 - sq,
    {
        t.push(table64_entry(kind, sq));
        sq = sq + 1;
    }
    t
}


/// Bit `i` of a byte (the `CHARBITSET` table).
pub open spec fn charbit(i: int) -> u8 {
    1u8 << (i as u8)
}

/// Attacks towards higher squares along an 8-square line, given the occupancy byte.
pub open spec fn slide_up(state8: u8, slide: int, acc: u8) -> u8
    decreases 8 - slide,
{
    if slide > 7 || slide < 1 {
        acc
    } else if ((!state8) & charbit(slide - 1)) != 0 {
        slide_up(state8, slide + 1, acc | charbit(slide))
    } else {
        acc
    }
}

/// Attacks towards lower squares along an 8-square line, given the occupancy byte.
pub open spec fn slide_down(state8: u8, slide: int, acc: u8) -> u8
    decreases slide + 1,
{
    if slide < 0 || slide > 6 {
        acc
    } else if ((!state8) & charbit(slide + 1)) != 0 {
        slide_down(state8, slide - 1, acc | charbit(slide))
    } else {
        acc
    }
}

/// `GEN_SLIDING_ATTACKS[square][state6]`: the squares attacked from `square`
/// (0..7) of a line whose six inner squares are occupied as in `state6`.
pub open spec fn gen_sliding_spec(square: int, state6: int) -> u8 {
    let state8 = ((state6 as u8) << 1u8) as u8;
    let a0: u8 = if square < 7 { 0u8 | charbit(square + 1) } else { 0u8 };
    let a1 = slide_up(state8, square + 2, a0);
    let a2 = if square > 0 { a1 | charbit(square - 1) } else { a1 };
    slide_down(state8, square - 2, a2)
}

fn charbit_exec(i: i32) -> (b: u8)
    requires
        0 <= i < 8,
    ensures
        b == charbit(i as int),
{
    1u8 << (i as u8)
}

fn gen_sliding_entry(square: i32, state6: u8) -> (a: u8)
    requires
        0 <= square < 8,
        state6 < 64,
    ensures
        a == gen_sliding_spec(square as int, state6 as int),
{
    let state8: u8 = state6 << 1;
    let mut attack8bit: u8 = 0;
    if square < 7 {
        attack8bit = attack8bit | charbit_exec(square + 1);
    }
    let mut slide: i32 = square + 2;
    while slide <= 7
        invariant
            0 <= square < 8,
            square + 2 <= slide,
            slide <= 8 || slide == square + 2,
            slide_up(state8, slide as int, attack8bit) == slide_up(state8, square + 2, if square < 7 { 0u8 | charbit(square + 1) } else { 0u8 }),
        ensures
            attack8bit == slide_up(state8, square + 2, if square < 7 { 0u8 | charbit(square + 1) } else { 0u8 }),
        decreases 9 - slide,
    {
        if ((!state8) & charbit_exec(slide - 1)) != 0 {
            attack8bit = attack8bit | charbit_exec(slide);
        } else {
            break;
        }
        slide = slide + 1;
    }
    let ghost a1 = slide_up(state8, square + 2, if square < 7 { 0u8 | charbit(square + 1) } else { 0u8 });
    assert(attack8bit == a1);
    if square > 0 {
        attack8bit = attack8bit | charbit_exec(square - 1);
    }
    let ghost a2 = attack8bit;
    slide = square - 2;
    while slide >= 0
        invariant
            0 <= square < 8,
            slide <= square - 2,
            slide >= -1 || slide == square - 2,
            slide_down(state8, slide as int, attack8bit) == slide_down(state8, square - 2, a2),
        ensures
            attack8bit == slide_down(state8, square - 2, a2),
        decreases slide + 2,
    {
        if ((!state8) & charbit_exec(slide + 1)) != 0 {
            attack8bit = attack8bit | charbit_exec(slide);
        } else {
            break;
        }
        slide = slide - 1;
    }
    attack8bit
}

/// The `GEN_SLIDING_ATTACKS` table, indexed by square (0..7) and 6-bit state.
pub fn build_gen_sliding() -> (t: Vec<Vec<u8>>)
    ensures
        t.len() == 8,
        forall|i: int| 0 <= i < 8 ==> (#[trigger] t[i]).len() == 64,
        forall|i: int, j: int| 0 <= i < 8 && 0 <= j < 64 ==> #[trigger] t[i][j] == gen_sliding_spec(i, j),
{
    let mut t: Vec<Vec<u8>> = Vec::new();
    let mut square: usize = 0;
    while square < 8
        invariant
            square <= 8,
            t.len() == square,
            forall|i: int| 0 <= i < square ==> (#[trigger] t[i]).len() == 64,
            forall|i: int, j: int| 0 <= i < square && 0 <= j < 64 ==> #[trigger] t[i][j] == gen_sliding_spec(i, j),
        decreases 8 - square,
    {
        let mut row: Vec<u8> = Vec::new();
        let mut st: u8 = 0;
        while st < 64
            invariant
                square < 8,
                st <= 64,
                row.len() == st,
                forall|j: int| 0 <= j < st ==> #[trigger] row[j] == gen_sliding_spec(square as int, j),
            decreases 64 - st,
        {
            row.push(gen_sliding_entry(square as i32, st));
            st = st + 1;
        }
        t.push(row);
        square = square + 1;
    }
    t
}


pub const RANK_ATT: u8 = 0;
pub const FILE_ATT: u8 = 1;
pub const DIAGA8H1_ATT: u8 = 2;
pub const DIAGA1H8_ATT: u8 = 3;

/// One step of the loop that turns an attack byte into a file or diagonal bitboard.
pub open spec fn att_step(kind: u8, sq: int, st: int, ab: int, acc: u64) -> u64 {
    let f = sfile(sq);
    let r = srank(sq);
    if kind == FILE_ATT {
        if gen_sliding_spec(8 - r, st) & charbit(ab) != 0 { acc | sqbit(f, 8 - ab) } else { acc }
    } else if kind == DIAGA8H1_ATT {
        let idx = if 8 - r < f - 1 { 8 - r } else { f - 1 };
        let d = f + r;
        let ff = if d < 10 { ab + 1 } else { d - (8 - ab) };
        let rr = if d < 10 { d - (ab + 1) } else { 8 - ab };
        if gen_sliding_spec(idx, st) & charbit(ab) != 0 && onboard(ff, rr) { acc | sqbit(ff, rr) } else { acc }
    } else {
        let idx = if r - 1 < f - 1 { r - 1 } else { f - 1 };
        let d = f - r;
        let ff = if d < 0 { ab + 1 } else { d + ab + 1 };
        let rr = if d < 0 { ab + 1 - d } else { ab + 1 };
        if gen_sliding_spec(idx, st) & charbit(ab) != 0 && onboard(ff, rr) { acc | sqbit(ff, rr) } else { acc }
    }
}

/// The rest of that loop, from attack bit `ab` on.
pub open spec fn att_from(kind: u8, sq: int, st: int, ab: int, acc: u64) -> u64
    decreases 8 - ab,
{
    if ab >= 8 || ab < 0 { acc } else { att_from(kind, sq, st, ab + 1, att_step(kind, sq, st, ab, acc)) }
}

/// Entry `[sq][st]` of the sliding attack table of the given kind.
pub open spec fn table4096_spec(kind: u8, sq: int, st: int) -> u64 {
    if kind == RANK_ATT {
        0u64 | ((gen_sliding_spec(sfile(sq) - 1, st) as u64) << ((8 * (srank(sq) - 1)) as u64))
    } else {
        att_from(kind, sq, st, 0, 0)
    }
}

fn att_step_exec(gen: &Vec<Vec<u8>>, kind: u8, sq: usize, st: usize, ab: i32, acc: u64) -> (r: u64)
    requires
        gen.len() == 8,
        forall|i: int| 0 <= i < 8 ==> (#[trigger] gen[i]).len() == 64,
        forall|i: int, j: int| 0 <= i < 8 && 0 <= j < 64 ==> #[trigger] gen[i][j] == gen_sliding_spec(i, j),
        1 <= kind <= 3,
        sq < 64,
        st < 64,
        0 <= ab < 8,
    ensures
        r == att_step(kind, sq as int, st as int, ab as int, acc),
{
    let f: i32 = (sq % 8) as i32 + 1;
    let r: i32 = (sq / 8) as i32 + 1;
    if kind == FILE_ATT {
        if gen[(8 - r) as usize][st] & charbit_exec(ab) != 0 {
            acc | sqbit_exec(f, 8 - ab)
        } else {
            acc
        }
    } else if kind == DIAGA8H1_ATT {
        let idx: i32 = if 8 - r < f - 1 { 8 - r } else { f - 1 };
        let d = f + r;
        let ff = if d < 10 { ab + 1 } else { d - (8 - ab) };
        let rr = if d < 10 { d - (ab + 1) } else { 8 - ab };
        if gen[idx as usize][st] & charbit_exec(ab) != 0 && 1 <= ff && ff <= 8 && 1 <= rr && rr <= 8 {
            acc | sqbit_exec(ff, rr)
        } else {
            acc
        }
    } else {
        let idx: i32 = if r - 1 < f - 1 { r - 1 } else { f - 1 };
        let d = f - r;
        let ff = if d < 0 { ab + 1 } else { d + ab + 1 };
        let rr = if d < 0 { ab + 1 - d } else { ab + 1 };
        if gen[idx as usize][st] & charbit_exec(ab) != 0 && 1 <= ff && ff <= 8 && 1 <= rr && rr <= 8 {
            acc | sqbit_exec(ff, rr)
        } else {
            acc
        }
    }
}

fn table4096_entry(gen: &Vec<Vec<u8>>, kind: u8, sq: usize, st: usize) -> (e: u64)
    requires
        gen.len() == 8,
        forall|i: int| 0 <= i < 8 ==> (#[trigger] gen[i]).len() == 64,
        forall|i: int, j: int| 0 <= i < 8 && 0 <= j < 64 ==> #[trigger] gen[i][j] == gen_sliding_spec(i, j),
        kind <= 3,
        sq < 64,
        st < 64,
    ensures
        e == table4096_spec(kind, sq as int, st as int),
{
    if kind == RANK_ATT {
        let f = sq % 8;
        let r = sq / 8;
        0u64 | ((gen[f][st] as u64) << ((8 * r) as u64))
    } else {
        let mut acc: u64 = 0;
        let mut ab: i32 = 0;
        while ab < 8
            invariant
                gen.len() == 8,
                forall|i: int| 0 <= i < 8 ==> (#[trigger] gen[i]).len() == 64,
                forall|i: int, j: int| 0 <= i < 8 && 0 <= j < 64 ==> #[trigger] gen[i][j] == gen_sliding_spec(i, j),
                1 <= kind <= 3,
                sq < 64,
                st < 64,
                0 <= ab <= 8,
                att_from(kind, sq as int, st as int, ab as int, acc) == att_from(kind, sq as int, st as int, 0, 0),
            decreases 8 - ab,
        {
            acc = att_step_exec(gen, kind, sq, st, ab, acc);
            ab = ab + 1;
        }
        acc
    }
}

/// The sliding attack table of the given kind, indexed by square and 6-bit state.
pub fn build_table4096(gen: &Vec<Vec<u8>>, kind: u8) -> (t: Vec<Vec<u64>>)
    requires
        gen.len() == 8,
        forall|i: int| 0 <= i < 8 ==> (#[trigger] gen[i]).len() == 64,
        forall|i: int, j: int| 0 <= i < 8 && 0 <= j < 64 ==> #[trigger] gen[i][j] == gen_sliding_spec(i, j),
        kind <= 3,
    ensures
        t.len() == 64,
        forall|i: int| 0 <= i < 64 ==> (#[trigger] t[i]).len() == 64,
        forall|i: int, j: int| 0 <= i < 64 && 0 <= j < 64 ==> #[trigger] t[i][j] == table4096_spec(kind, i, j),
{
    let mut t: Vec<Vec<u64>> = Vec::new();
    let mut sq: usize = 0;
    while sq < 64
        invariant
            gen.len() == 8,
            forall|i: int| 0 <= i < 8 ==> (#[trigger] gen[i]).len() == 64,
            forall|i: int, j: int| 0 <= i < 8 && 0 <= j < 64 ==> #[trigger] gen[i][j] == gen_sliding_spec(i, j),
            kind <= 3,
            sq <= 64,
            t.len() == sq,
            forall|i: int| 0 <= i < sq ==> (#[trigger] t[i]).len() == 64,
            forall|i: int, j: int| 0 <= i < sq && 0 <= j < 64 ==> #[trigger] t[i][j] == table4096_spec(kind, i, j),
        decreases 64 - sq,
    {
        let mut row: Vec<u64> = Vec::new();
        let mut st: usize = 0;
        while st < 64
            invariant
                gen.len() == 8,
                forall|i: int| 0 <= i < 8 ==> (#[trigger] gen[i]).len() == 64,
                forall|i: int, j: int| 0 <= i < 8 && 0 <= j < 64 ==> #[trigger] gen[i][j] == gen_sliding_spec(i, j),
                kind <= 3,
                sq < 64,
                st <= 64,
                row.len() == st,
                forall|j: int| 0 <= j < st ==> #[trigger] row[j] == table4096_spec(kind, sq as int, j),
            decreases 64 - st,
        {
            row.push(table4096_entry(gen, kind, sq, st));
            st = st + 1;
        }
        t.push(row);
        sq = sq + 1;
    }
    t
}


/// `BLACK_SQUARES` from square `i` on: the dark squares are those whose
/// index plus rank is odd.
pub open spec fn dark_from(i: int, acc: u64) -> u64
    decreases 64 - i,
{
    if i >= 64 || i < 0 {
        acc
    } else {
        dark_from(i + 1, if (i + srank(i)) % 2 != 0 { acc ^ (1u64 << (i as u64)) } else { acc })
    }
}

pub struct AttackTables {
    pub white_pawn_attacks: Vec<u64>,
    pub white_pawn_moves: Vec<u64>,
    pub white_pawn_double_moves: Vec<u64>,
    pub black_pawn_attacks: Vec<u64>,
    pub black_pawn_moves: Vec<u64>,
    pub black_pawn_double_moves: Vec<u64>,
    pub knight_attacks: Vec<u64>,
    pub king_attacks: Vec<u64>,
    pub rankmask: Vec<u64>,
    pub filemask: Vec<u64>,
    pub filemagic: Vec<u64>,
    pub diaga8h1mask: Vec<u64>,
    pub diaga8h1magic: Vec<u64>,
    pub diaga1h8mask: Vec<u64>,
    pub diaga1h8magic: Vec<u64>,
    pub gen_sliding_attacks: Vec<Vec<u8>>,
    pub rank_attacks: Vec<Vec<u64>>,
    pub file_attacks: Vec<Vec<u64>>,
    pub diaga8h1_attacks: Vec<Vec<u64>>,
    pub diaga1h8_attacks: Vec<Vec<u64>>,
    pub mask_eg: [u64; 2],
    pub mask_fg: [u64; 2],
    pub mask_bd: [u64; 2],
    pub mask_ce: [u64; 2],
    pub white_squares: u64,
    pub black_squares: u64,
}

impl AttackTables {
    /// The 64-entry table of the given kind.
    pub open spec fn t64(self, kind: u8) -> Vec<u64> {
        if kind == WPAWN_ATTACKS { self.white_pawn_attacks }
        else if kind == WPAWN_MOVES { self.white_pawn_moves }
        else if kind == WPAWN_DOUBLE { self.white_pawn_double_moves }
        else if kind == BPAWN_ATTACKS { self.black_pawn_attacks }
        else if kind == BPAWN_MOVES { self.black_pawn_moves }
        else if kind == BPAWN_DOUBLE { self.black_pawn_double_moves }
        else if kind == KNIGHT { self.knight_attacks }
        else if kind == KING { self.king_attacks }
        else if kind == RANK_MASK { self.rankmask }
        else if kind == FILE_MASK { self.filemask }
        else if kind == FILE_MAGIC { self.filemagic }
        else if kind == DIAGA8H1_MASK { self.diaga8h1mask }
        else if kind == DIAGA8H1_MAGIC { self.diaga8h1magic }
        else if kind == DIAGA1H8_MASK { self.diaga1h8mask }
        else { self.diaga1h8magic }
    }

    /// The sliding attack table of the given kind.
    pub open spec fn t4096(self, kind: u8) -> Vec<Vec<u64>> {
        if kind == RANK_ATT { self.rank_attacks }
        else if kind == FILE_ATT { self.file_attacks }
        else if kind == DIAGA8H1_ATT { self.diaga8h1_attacks }
        else { self.diaga1h8_attacks }
    }

    /// Every table holds what `data_init` computes.
    pub open spec fn wf(self) -> bool {
        &&& forall|k: u8| k <= 14 ==> (#[trigger] self.t64(k)).len() == 64
        &&& forall|k: u8, i: int| k <= 14 && 0 <= i < 64 ==> #[trigger] self.t64(k)[i] == table64_spec(k, i)
        &&& forall|k: u8| k <= 3 ==> (#[trigger] self.t4096(k)).len() == 64
        &&& forall|k: u8, i: int| k <= 3 && 0 <= i < 64 ==> (#[trigger] self.t4096(k)[i]).len() == 64
        &&& forall|k: u8, i: int, j: int| k <= 3 && 0 <= i < 64 && 0 <= j < 64 ==>
            #[trigger] self.t4096(k)[i][j] == table4096_spec(k, i, j)
        &&& self.gen_sliding_attacks.len() == 8
        &&& forall|i: int| 0 <= i < 8 ==> (#[trigger] self.gen_sliding_attacks[i]).len() == 64
        &&& forall|i: int, j: int| 0 <= i < 8 && 0 <= j < 64 ==>
            #[trigger] self.gen_sliding_attacks[i][j] == gen_sliding_spec(i, j)
        &&& self.mask_eg[0] == sqbit(5, 1) | sqbit(6, 1) | sqbit(7, 1)
        &&& self.mask_eg[1] == sqbit(5, 8) | sqbit(6, 8) | sqbit(7, 8)
        &&& self.mask_fg[0] == sqbit(6, 1) | sqbit(7, 1)
        &&& self.mask_fg[1] == sqbit(6, 8) | sqbit(7, 8)
        &&& self.mask_bd[0] == sqbit(2, 1) | sqbit(3, 1) | sqbit(4, 1)
        &&& self.mask_bd[1] == sqbit(2, 8) | sqbit(3, 8) | sqbit(4, 8)
        &&& self.mask_ce[0] == sqbit(3, 1) | sqbit(4, 1) | sqbit(5, 1)
        &&& self.mask_ce[1] == sqbit(3, 8) | sqbit(4, 8) | sqbit(5, 8)
        &&& self.black_squares == dark_from(0, 0)
        &&& self.white_squares == !dark_from(0, 0)
    }
}

fn dark_squares() -> (b: u64)
    ensures
        b == dark_from(0, 0),
{
    let mut acc: u64 = 0;
    let mut i: usize = 0;
    while i < 64
        invariant
            i <= 64,
            dark_from(i as int, acc) == dark_from(0, 0),
        decreases 64 - i,
    {
        if (i + i / 8 + 1) % 2 != 0 {
            acc = acc ^ (1u64 << (i as u64));
        }
        i = i + 1;
    }
    acc
}

/// Builds all the attack tables and masks used by the move generator.
pub fn data_init() -> (t: AttackTables)
    ensures
        t.wf(),
{
    let gen = build_gen_sliding();
    let rank_attacks = build_table4096(&gen, RANK_ATT);
    let file_attacks = build_table4096(&gen, FILE_ATT);
    let diaga8h1_attacks = build_table4096(&gen, DIAGA8H1_ATT);
    let diaga1h8_attacks = build_table4096(&gen, DIAGA1H8_ATT);
    let black_squares = dark_squares();
    let t = AttackTables {
        white_pawn_attacks: build_table64(WPAWN_ATTACKS),
        white_pawn_moves: build_table64(WPAWN_MOVES),
        white_pawn_double_moves: build_table64(WPAWN_DOUBLE),
        black_pawn_attacks: build_table64(BPAWN_ATTACKS),
        black_pawn_moves: build_table64(BPAWN_MOVES),
        black_pawn_double_moves: build_table64(BPAWN_DOUBLE),
        knight_attacks: build_table64(KNIGHT),
        king_attacks: build_table64(KING),
        rankmask: build_table64(RANK_MASK),
        filemask: build_table64(FILE_MASK),
        filemagic: build_table64(FILE_MAGIC),
        diaga8h1mask: build_table64(DIAGA8H1_MASK),
        diaga8h1magic: build_table64(DIAGA8H1_MAGIC),
        diaga1h8mask: build_table64(DIAGA1H8_MASK),
        diaga1h8magic: build_table64(DIAGA1H8_MAGIC),
        gen_sliding_attacks: gen,
        rank_attacks,
        file_attacks,
        diaga8h1_attacks,
        diaga1h8_attacks,
        mask_eg: [sqbit_exec(5, 1) | sqbit_exec(6, 1) | sqbit_exec(7, 1), sqbit_exec(5, 8) | sqbit_exec(6, 8) | sqbit_exec(7, 8)],
        mask_fg: [sqbit_exec(6, 1) | sqbit_exec(7, 1), sqbit_exec(6, 8) | sqbit_exec(7, 8)],
        mask_bd: [sqbit_exec(2, 1) | sqbit_exec(3, 1) | sqbit_exec(4, 1), sqbit_exec(2, 8) | sqbit_exec(3, 8) | sqbit_exec(4, 8)],
        mask_ce: [sqbit_exec(3, 1) | sqbit_exec(4, 1) | sqbit_exec(5, 1), sqbit_exec(3, 8) | sqbit_exec(4, 8) | sqbit_exec(5, 8)],
        white_squares: !black_squares,
        black_squares,
    };
    proof {
        assert forall|k: u8| k <= 14 implies (#[trigger] t.t64(k)).len() == 64 by {}
        assert forall|k: u8, i: int| k <= 14 && 0 <= i < 64 implies #[trigger] t.t64(k)[i] == table64_spec(k, i) by {}
        assert forall|k: u8| k <= 3 implies (#[trigger] t.t4096(k)).len() == 64 by {}
        assert forall|k: u8, i: int| k <= 3 && 0 <= i < 64 implies (#[trigger] t.t4096(k)[i]).len() == 64 by {}
        assert forall|k: u8, i: int, j: int| k <= 3 && 0 <= i < 64 && 0 <= j < 64 implies
            #[trigger] t.t4096(k)[i][j] == table4096_spec(k, i, j) by {}
    }
    t
}


/// The files and ranks from square `from` to square `to`.
pub open spec fn file_step(from: int, to: int) -> int {
    sfile(to) - sfile(from)
}

pub open spec fn rank_step(from: int, to: int) -> int {
    srank(to) - srank(from)
}

/// A knight goes from `from` to `to`: one file and two ranks, or two files
/// and one rank, either way.
pub open spec fn knight_step(from: int, to: int) -> bool {
    let df = file_step(from, to);
    let dr = rank_step(from, to);
    ||| (df == 1 || df == -1) && (dr == 2 || dr == -2)
    ||| (df == 2 || df == -2) && (dr == 1 || dr == -1)
}

/// A king goes from `from` to `to`: to a neighbouring square.
pub open spec fn king_step(from: int, to: int) -> bool {
    let df = file_step(from, to);
    let dr = rank_step(from, to);
    &&& from != to
    &&& -1 <= df <= 1
    &&& -1 <= dr <= 1
}

/// A pawn of the side moving up the board (`up`, white) or down it takes
/// from `from` on `to`: one file aside and one rank forward.
pub open spec fn pawn_take_step(up: bool, from: int, to: int) -> bool {
    &&& file_step(from, to) == 1 || file_step(from, to) == -1
    &&& rank_step(from, to) == (if up { 1int } else { -1int })
}

/// A jump adds exactly the square that lies that many files and ranks away.
proof fn lemma_add_jump_bit(acc: u64, sq: int, df: int, dr: int, t: int)
    requires
        0 <= sq < 64,
        0 <= t < 64,
    ensures
        has_bit(add_jump(acc, sq, df, dr), t) == (has_bit(acc, t) || (file_step(sq, t) == df && rank_step(sq, t) == dr)),
{
    let f = sfile(sq) + df;
    let r = srank(sq) + dr;
    if onboard(f, r) {
        let k = (r - 1) * 8 + f - 1;
        lemma_bit_or(acc, sqbit(f, r), t);
        lemma_bit_single(k as u64, t);
        assert(t == k <==> (t % 8 + 1 == f && t / 8 + 1 == r));
    } else {
        assert(!(file_step(sq, t) == df && rank_step(sq, t) == dr));
    }
}

/// The knight table holds, for each square, exactly the squares a knight
/// goes to from it.
pub proof fn law_knight_table(tb: AttackTables, from: int, to: int)
    requires
        tb.wf(),
        0 <= from < 64,
        0 <= to < 64,
    ensures
        has_bit(tb.knight_attacks[from], to) == knight_step(from, to),
{
    assert(tb.t64(KNIGHT)[from] == table64_spec(KNIGHT, from));
    lemma_bit_zero(to);
    let a1 = add_jump(0, from, -2, 1);
    let a2 = add_jump(a1, from, -1, 2);
    let a3 = add_jump(a2, from, 1, 2);
    let a4 = add_jump(a3, from, 2, 1);
    let a5 = add_jump(a4, from, 2, -1);
    let a6 = add_jump(a5, from, 1, -2);
    let a7 = add_jump(a6, from, -1, -2);
    lemma_add_jump_bit(0, from, -2, 1, to);
    lemma_add_jump_bit(a1, from, -1, 2, to);
    lemma_add_jump_bit(a2, from, 1, 2, to);
    lemma_add_jump_bit(a3, from, 2, 1, to);
    lemma_add_jump_bit(a4, from, 2, -1, to);
    lemma_add_jump_bit(a5, from, 1, -2, to);
    lemma_add_jump_bit(a6, from, -1, -2, to);
    lemma_add_jump_bit(a7, from, -2, -1, to);
}

/// The king table holds, for each square, exactly its neighbours.
pub proof fn law_king_table(tb: AttackTables, from: int, to: int)
    requires
        tb.wf(),
        0 <= from < 64,
        0 <= to < 64,
    ensures
        has_bit(tb.king_attacks[from], to) == king_step(from, to),
{
    assert(tb.t64(KING)[from] == table64_spec(KING, from));
    lemma_bit_zero(to);
    let a1 = add_jump(0, from, -1, 0);
    let a2 = add_jump(a1, from, -1, 1);
    let a3 = add_jump(a2, from, 0, 1);
    let a4 = add_jump(a3, from, 1, 1);
    let a5 = add_jump(a4, from, 1, 0);
    let a6 = add_jump(a5, from, 1, -1);
    let a7 = add_jump(a6, from, 0, -1);
    lemma_add_jump_bit(0, from, -1, 0, to);
    lemma_add_jump_bit(a1, from, -1, 1, to);
    lemma_add_jump_bit(a2, from, 0, 1, to);
    lemma_add_jump_bit(a3, from, 1, 1, to);
    lemma_add_jump_bit(a4, from, 1, 0, to);
    lemma_add_jump_bit(a5, from, 1, -1, to);
    lemma_add_jump_bit(a6, from, 0, -1, to);
    lemma_add_jump_bit(a7, from, -1, -1, to);
    assert(from == to ==> file_step(from, to) == 0 && rank_step(from, to) == 0);
    assert(file_step(from, to) == 0 && rank_step(from, to) == 0 ==> from == to);
}

/// The pawn capture tables hold, for each square, exactly the squares a
/// white pawn (one rank up) or a black pawn (one rank down) takes on.
pub proof fn law_pawn_attack_tables(tb: AttackTables, from: int, to: int)
    requires
        tb.wf(),
        0 <= from < 64,
        0 <= to < 64,
    ensures
        has_bit(tb.white_pawn_attacks[from], to) == pawn_take_step(true, from, to),
        has_bit(tb.black_pawn_attacks[from], to) == pawn_take_step(false, from, to),
{
    assert(tb.t64(WPAWN_ATTACKS)[from] == table64_spec(WPAWN_ATTACKS, from));
    assert(tb.t64(BPAWN_ATTACKS)[from] == table64_spec(BPAWN_ATTACKS, from));
    lemma_bit_zero(to);
    lemma_add_jump_bit(0, from, -1, 1, to);
    lemma_add_jump_bit(add_jump(0, from, -1, 1), from, 1, 1, to);
    lemma_add_jump_bit(0, from, -1, -1, to);
    lemma_add_jump_bit(add_jump(0, from, -1, -1), from, 1, -1, to);
}


/// Bit `i` of a byte.
pub open spec fn byte_bit(x: u8, i: int) -> bool {
    (x >> (i as u8)) & 1u8 == 1u8
}

/// On a line of eight squares occupied as in `state8`, the square `j` is
/// attacked from the square `s`: it is another square, and every square
/// strictly between them is empty.
pub open spec fn line_attack(state8: u8, s: int, j: int) -> bool {
    &&& 0 <= j < 8
    &&& j != s
    &&& forall|i: int| (s < i < j || j < i < s) ==> !#[trigger] byte_bit(state8, i)
}

proof fn lemma_byte_or_bit(acc: u8, k: int, i: int)
    requires
        0 <= k < 8,
        0 <= i < 8,
    ensures
        byte_bit(acc | charbit(k), i) == (byte_bit(acc, i) || i == k),
{
    let kk = k as u8;
    let ii = i as u8;
    assert(((((acc | (1u8 << kk)) >> ii) & 1u8) == 1u8) == ((((acc >> ii) & 1u8) == 1u8) || ii == kk)) by (bit_vector)
        requires kk < 8, ii < 8;
}

proof fn lemma_byte_clear(st: u8, k: int)
    requires
        0 <= k < 8,
    ensures
        (((!st) & charbit(k)) != 0) == !byte_bit(st, k),
{
    let kk = k as u8;
    assert((((!st) & (1u8 << kk)) != 0) == !(((st >> kk) & 1u8) == 1u8)) by (bit_vector)
        requires kk < 8;
}

proof fn lemma_byte_zero(i: int)
    requires
        0 <= i < 8,
    ensures
        !byte_bit(0u8, i),
{
    let ii = i as u8;
    assert(((0u8 >> ii) & 1u8) != 1u8) by (bit_vector);
}

proof fn lemma_slide_up(st: u8, slide: int, acc: u8, j: int)
    requires
        slide >= 1,
        0 <= j < 8,
    ensures
        byte_bit(slide_up(st, slide, acc), j) == (byte_bit(acc, j) || (slide <= j <= 7 && forall|i: int|
            slide - 1 <= i < j ==> !#[trigger] byte_bit(st, i))),
    decreases 8 - slide,
{
    if slide > 7 {
    } else {
        lemma_byte_clear(st, slide - 1);
        if ((!st) & charbit(slide - 1)) != 0 {
            lemma_slide_up(st, slide + 1, acc | charbit(slide), j);
            lemma_byte_or_bit(acc, slide, j);
        } else {
            if slide <= j {
                assert(byte_bit(st, slide - 1));
            }
        }
    }
}

proof fn lemma_slide_down(st: u8, slide: int, acc: u8, j: int)
    requires
        slide <= 6,
        0 <= j < 8,
    ensures
        byte_bit(slide_down(st, slide, acc), j) == (byte_bit(acc, j) || (0 <= j <= slide && forall|i: int|
            j < i <= slide + 1 ==> !#[trigger] byte_bit(st, i))),
    decreases slide + 1,
{
    if slide < 0 {
    } else {
        lemma_byte_clear(st, slide + 1);
        if ((!st) & charbit(slide + 1)) != 0 {
            lemma_slide_down(st, slide - 1, acc | charbit(slide), j);
            lemma_byte_or_bit(acc, slide, j);
        } else {
            if j <= slide {
                assert(byte_bit(st, slide + 1));
            }
        }
    }
}

/// The sliding table of a line gives, for a piece on square `square` of a
/// line of eight whose six inner squares are occupied as in `state6` (the
/// two end squares count as empty), exactly the squares it attacks: along
/// the line in both directions, up to and with the first occupied square.
pub proof fn law_line_attacks(square: int, state6: int, j: int)
    requires
        0 <= square < 8,
        0 <= state6 < 64,
        0 <= j < 8,
    ensures
        byte_bit(gen_sliding_spec(square, state6), j) == line_attack(((state6 as u8) << 1u8) as u8, square, j),
{
    let st = ((state6 as u8) << 1u8) as u8;
    let a0: u8 = if square < 7 { 0u8 | charbit(square + 1) } else { 0u8 };
    let a1 = slide_up(st, square + 2, a0);
    let a2 = if square > 0 { a1 | charbit(square - 1) } else { a1 };
    lemma_byte_zero(j);
    if square < 7 {
        lemma_byte_or_bit(0u8, square + 1, j);
    }
    lemma_slide_up(st, square + 2, a0, j);
    if square > 0 {
        lemma_byte_or_bit(a1, square - 1, j);
    }
    lemma_slide_down(st, square - 2, a2, j);
    assert(gen_sliding_spec(square, state6) == slide_down(st, square - 2, a2));
}


proof fn lemma_byte_in_rank(g: u8, r: int, t: int)
    requires
        0 <= r < 8,
        0 <= t < 64,
    ensures
        has_bit(0u64 | ((g as u64) << ((8 * r) as u64)), t) == (t / 8 == r && byte_bit(g, t % 8)),
{
    let rr = r as u64;
    let tt = t as u64;
    assert(((((0u64 | ((g as u64) << (8 * rr))) >> tt) & 1u64) == 1u64) == (tt / 8 == rr && (((g >> ((tt % 8) as u8))
        & 1u8) == 1u8))) by (bit_vector)
        requires rr < 8, tt < 64;
}

/// The rank table gives, for a rook or queen on `sq` and the occupancy
/// `state6` of the six inner squares of its rank, exactly the squares it
/// attacks along the rank: up to and with the first occupied square each
/// way (see `law_line_attacks`).
pub proof fn law_rank_table(tb: AttackTables, sq: int, state6: int, t: int)
    requires
        tb.wf(),
        0 <= sq < 64,
        0 <= state6 < 64,
        0 <= t < 64,
    ensures
        has_bit(tb.rank_attacks[sq][state6], t) == (srank(t) == srank(sq) && line_attack(((state6 as u8) << 1u8) as u8,
            sfile(sq) - 1, sfile(t) - 1)),
{
    assert(tb.t4096(RANK_ATT)[sq][state6] == table4096_spec(RANK_ATT, sq, state6));
    let g = gen_sliding_spec(sfile(sq) - 1, state6);
    lemma_byte_in_rank(g, srank(sq) - 1, t);
    law_line_attacks(sfile(sq) - 1, state6, t % 8);
}


proof fn lemma_sqbit_or(acc: u64, f: int, r: int, t: int)
    requires
        onboard(f, r),
        0 <= t < 64,
    ensures
        has_bit(acc | sqbit(f, r), t) == (has_bit(acc, t) || (sfile(t) == f && srank(t) == r)),
{
    let k = (r - 1) * 8 + f - 1;
    lemma_bit_or(acc, sqbit(f, r), t);
    lemma_bit_single(k as u64, t);
    assert(t == k <==> (t % 8 + 1 == f && t / 8 + 1 == r));
}

proof fn lemma_byte_and_bit(x: u8, k: int)
    requires
        0 <= k < 8,
    ensures
        ((x & charbit(k)) != 0) == byte_bit(x, k),
{
    let kk = k as u8;
    assert(((x & (1u8 << kk)) != 0) == (((x >> kk) & 1u8) == 1u8)) by (bit_vector)
        requires kk < 8;
}

proof fn lemma_file_from(sq: int, st: int, ab: int, acc: u64, t: int)
    requires
        0 <= sq < 64,
        0 <= t < 64,
        0 <= ab <= 8,
    ensures
        has_bit(att_from(FILE_ATT, sq, st, ab, acc), t) == (has_bit(acc, t) || (sfile(t) == sfile(sq) && ab <= 8
            - srank(t) && byte_bit(gen_sliding_spec(8 - srank(sq), st), 8 - srank(t)))),
    decreases 8 - ab,
{
    if ab < 8 {
        let g = gen_sliding_spec(8 - srank(sq), st);
        lemma_byte_and_bit(g, ab);
        if g & charbit(ab) != 0 {
            lemma_sqbit_or(acc, sfile(sq), 8 - ab, t);
        }
        lemma_file_from(sq, st, ab + 1, att_step(FILE_ATT, sq, st, ab, acc), t);
    }
}

/// The file table gives, for a rook or queen on `sq` and the occupancy
/// `state6` of the six inner squares of its file (counted from rank 7
/// down), exactly the squares it attacks along the file: up to and with
/// the first occupied square each way.
pub proof fn law_file_table(tb: AttackTables, sq: int, state6: int, t: int)
    requires
        tb.wf(),
        0 <= sq < 64,
        0 <= state6 < 64,
        0 <= t < 64,
    ensures
        has_bit(tb.file_attacks[sq][state6], t) == (sfile(t) == sfile(sq) && line_attack(((state6 as u8) << 1u8) as u8,
            8 - srank(sq), 8 - srank(t))),
{
    assert(tb.t4096(FILE_ATT)[sq][state6] == table4096_spec(FILE_ATT, sq, state6));
    lemma_bit_zero(t);
    lemma_file_from(sq, state6, 0, 0, t);
    law_line_attacks(8 - srank(sq), state6, 8 - srank(t));
}


/// The place of square `t` along its a8-h1 diagonal (file plus rank `d`),
/// counted from the diagonal's lower-left end.
pub open spec fn diag8_pos(d: int, t: int) -> int {
    if d < 10 { sfile(t) - 1 } else { 8 - srank(t) }
}

/// The place of square `t` along its a1-h8 diagonal (file minus rank `d`),
/// counted from the diagonal's lower-left end.
pub open spec fn diag1_pos(d: int, t: int) -> int {
    if d < 0 { sfile(t) - 1 } else { srank(t) - 1 }
}

proof fn lemma_diag8_from(sq: int, st: int, ab: int, acc: u64, t: int)
    requires
        0 <= sq < 64,
        0 <= t < 64,
        0 <= ab <= 8,
    ensures
        ({
            let d = sfile(sq) + srank(sq);
            let idx = if 8 - srank(sq) < sfile(sq) - 1 { 8 - srank(sq) } else { sfile(sq) - 1 };
            has_bit(att_from(DIAGA8H1_ATT, sq, st, ab, acc), t) == (has_bit(acc, t) || (sfile(t) + srank(t) == d
                && ab <= diag8_pos(d, t) && byte_bit(gen_sliding_spec(idx, st), diag8_pos(d, t))))
        }),
    decreases 8 - ab,
{
    if ab < 8 {
        let f = sfile(sq);
        let r = srank(sq);
        let d = f + r;
        let idx = if 8 - r < f - 1 { 8 - r } else { f - 1 };
        let g = gen_sliding_spec(idx, st);
        let ff = if d < 10 { ab + 1 } else { d - (8 - ab) };
        let rr = if d < 10 { d - (ab + 1) } else { 8 - ab };
        lemma_byte_and_bit(g, ab);
        if g & charbit(ab) != 0 && onboard(ff, rr) {
            lemma_sqbit_or(acc, ff, rr, t);
        }
        assert(sfile(t) + srank(t) == d && diag8_pos(d, t) == ab ==> onboard(ff, rr) && sfile(t) == ff && srank(t)
            == rr);
        lemma_diag8_from(sq, st, ab + 1, att_step(DIAGA8H1_ATT, sq, st, ab, acc), t);
    }
}

proof fn lemma_diag1_from(sq: int, st: int, ab: int, acc: u64, t: int)
    requires
        0 <= sq < 64,
        0 <= t < 64,
        0 <= ab <= 8,
    ensures
        ({
            let d = sfile(sq) - srank(sq);
            let idx = if srank(sq) - 1 < sfile(sq) - 1 { srank(sq) - 1 } else { sfile(sq) - 1 };
            has_bit(att_from(DIAGA1H8_ATT, sq, st, ab, acc), t) == (has_bit(acc, t) || (sfile(t) - srank(t) == d
                && ab <= diag1_pos(d, t) && byte_bit(gen_sliding_spec(idx, st), diag1_pos(d, t))))
        }),
    decreases 8 - ab,
{
    if ab < 8 {
        let f = sfile(sq);
        let r = srank(sq);
        let d = f - r;
        let idx = if r - 1 < f - 1 { r - 1 } else { f - 1 };
        let g = gen_sliding_spec(idx, st);
        let ff = if d < 0 { ab + 1 } else { d + ab + 1 };
        let rr = if d < 0 { ab + 1 - d } else { ab + 1 };
        lemma_byte_and_bit(g, ab);
        if g & charbit(ab) != 0 && onboard(ff, rr) {
            lemma_sqbit_or(acc, ff, rr, t);
        }
        assert(sfile(t) - srank(t) == d && diag1_pos(d, t) == ab ==> onboard(ff, rr) && sfile(t) == ff && srank(t)
            == rr);
        lemma_diag1_from(sq, st, ab + 1, att_step(DIAGA1H8_ATT, sq, st, ab, acc), t);
    }
}

/// The diagonal tables give, for a bishop or queen on `sq` and the
/// occupancy `state6` of the six inner squares of its diagonal (counted
/// from the diagonal's lower-left end), exactly the squares it attacks
/// along that diagonal: up to and with the first occupied square each way.
pub proof fn law_diagonal_tables(tb: AttackTables, sq: int, state6: int, t: int)
    requires
        tb.wf(),
        0 <= sq < 64,
        0 <= state6 < 64,
        0 <= t < 64,
    ensures
        ({
            let d8 = sfile(sq) + srank(sq);
            let d1 = sfile(sq) - srank(sq);
            let state8 = ((state6 as u8) << 1u8) as u8;
            &&& has_bit(tb.diaga8h1_attacks[sq][state6], t) == (sfile(t) + srank(t) == d8 && line_attack(state8,
                diag8_pos(d8, sq), diag8_pos(d8, t)))
            &&& has_bit(tb.diaga1h8_attacks[sq][state6], t) == (sfile(t) - srank(t) == d1 && line_attack(state8,
                diag1_pos(d1, sq), diag1_pos(d1, t)))
        }),
{
    assert(tb.t4096(DIAGA8H1_ATT)[sq][state6] == table4096_spec(DIAGA8H1_ATT, sq, state6));
    assert(tb.t4096(DIAGA1H8_ATT)[sq][state6] == table4096_spec(DIAGA1H8_ATT, sq, state6));
    lemma_bit_zero(t);
    lemma_diag8_from(sq, state6, 0, 0, t);
    lemma_diag1_from(sq, state6, 0, 0, t);
    let d8 = sfile(sq) + srank(sq);
    let d1 = sfile(sq) - srank(sq);
    law_line_attacks(diag8_pos(d8, sq), state6, diag8_pos(d8, t));
    law_line_attacks(diag1_pos(d1, sq), state6, diag1_pos(d1, t));
}


proof fn lemma_dark_from(i: int, acc: u64, s: int)
    requires
        0 <= i <= 64,
        0 <= s < 64,
    ensures
        has_bit(dark_from(i, acc), s) == (has_bit(acc, s) != (i <= s && (s + srank(s)) % 2 != 0)),
    decreases 64 - i,
{
    if i < 64 {
        let nacc = if (i + srank(i)) % 2 != 0 { acc ^ (1u64 << (i as u64)) } else { acc };
        if (i + srank(i)) % 2 != 0 {
            lemma_bit_xor(acc, 1u64 << (i as u64), s);
            lemma_bit_single(i as u64, s);
        }
        lemma_dark_from(i + 1, nacc, s);
    }
}

/// The dark squares of the tables are those whose file and rank add up to
/// an even number (a1 is dark, h1 light); the light squares are the others.
pub proof fn law_square_colours(tb: AttackTables, s: int)
    requires
        tb.wf(),
        0 <= s < 64,
    ensures
        has_bit(tb.black_squares, s) == ((sfile(s) + srank(s)) % 2 == 0),
        has_bit(tb.white_squares, s) == ((sfile(s) + srank(s)) % 2 != 0),
{
    lemma_dark_from(0, 0, s);
    lemma_bit_zero(s);
    crate::bitops::lemma_bit_not(dark_from(0, 0), s);
    assert((s + srank(s)) % 2 != 0 <==> (sfile(s) + srank(s)) % 2 == 0);
}

}
