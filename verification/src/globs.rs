use vstd::prelude::*;

verus! {

pub const DEFAULT_POSITION: &'static str = "rnbqkbnr/pppppppp/8/8/8/8/PPPPPPPP/RNBQKBNR w KQkq - 0 1";

pub const MAX_MOV_BUFF: usize = 4096;
pub const MAX_PLY: usize = 64;
pub const MAX_GAME_LINE: usize = 4096;

pub const A1: usize = 0;
pub const B1: usize = 1;
pub const C1: usize = 2;
pub const D1: usize = 3;
pub const E1: usize = 4;
pub const F1: usize = 5;
pub const G1: usize = 6;
pub const H1: usize = 7;
pub const A8: usize = 56;
pub const B8: usize = 57;
pub const C8: usize = 58;
pub const D8: usize = 59;
pub const E8: usize = 60;
pub const F8: usize = 61;
pub const G8: usize = 62;
pub const H8: usize = 63;

pub const WHITE_MOVE: u8 = 0;
pub const BLACK_MOVE: u8 = 1;

// Piece identifiers, 4 bits each: bit 3 is the colour (0 white, 1 black),
// sliding pieces have bit 2 set, rank/file sliders bit 1, diagonal sliders bit 0.
pub const EMPTY: u8 = 0;
pub const WHITE_PAWN: u8 = 1;
pub const WHITE_KING: u8 = 2;
pub const WHITE_KNIGHT: u8 = 3;
pub const WHITE_BISHOP: u8 = 5;
pub const WHITE_ROOK: u8 = 6;
pub const WHITE_QUEEN: u8 = 7;
pub const BLACK_PAWN: u8 = 9;
pub const BLACK_KING: u8 = 10;
pub const BLACK_KNIGHT: u8 = 11;
pub const BLACK_BISHOP: u8 = 13;
pub const BLACK_ROOK: u8 = 14;
pub const BLACK_QUEEN: u8 = 15;

pub const CANCASTLEOO: u8 = 1;
pub const CANCASTLEOOO: u8 = 2;

// The four castling moves, packed as moves (see `Movim`).
pub const WHITE_OOO_CASTL: u32 = 2105476;
pub const BLACK_OOO_CASTL: u32 = 10530492;
pub const WHITE_OO_CASTL: u32 = 2105732;
pub const BLACK_OO_CASTL: u32 = 10530748;

/// The piece codes that can stand on a square (0 is an empty square).
pub open spec fn valid_code(p: int) -> bool {
    p == 0 || 1 <= p <= 3 || 5 <= p <= 7 || 9 <= p <= 11 || 13 <= p <= 15
}

pub open spec fn is_piece(p: int) -> bool {
    valid_code(p) && p != 0
}

pub open spec fn is_white_piece(p: int) -> bool {
    is_piece(p) && p < 8
}

pub open spec fn is_black_piece(p: int) -> bool {
    is_piece(p) && p >= 8
}

/// File of a square, 1..8 (the `FILES` table).
pub open spec fn file_of(sq: int) -> int {
    sq % 8 + 1
}

/// Rank of a square, 1..8 (the `RANKS` table).
pub open spec fn rank_of(sq: int) -> int {
    sq / 8 + 1
}

/// `FILES[sq]`: the file (1..8) of square `sq`.
pub fn files(sq: usize) -> (r: i32)
    requires
        sq < 64,
    ensures
        r == file_of(sq as int),
{
    (sq % 8 + 1) as i32
}

/// `RANKS[sq]`: the rank (1..8) of square `sq`.
pub fn ranks(sq: usize) -> (r: i32)
    requires
        sq < 64,
    ensures
        r == rank_of(sq as int),
{
    (sq / 8 + 1) as i32
}

/// The letter 'a'..'h' of a file numbered 1..8.
pub open spec fn file_char(f: int) -> char {
    if f == 1 { 'a' } else if f == 2 { 'b' } else if f == 3 { 'c' } else if f == 4 { 'd' }
    else if f == 5 { 'e' } else if f == 6 { 'f' } else if f == 7 { 'g' } else { 'h' }
}

/// The digit '1'..'8' of a rank numbered 1..8.
pub open spec fn rank_char(r: int) -> char {
    if r == 1 { '1' } else if r == 2 { '2' } else if r == 3 { '3' } else if r == 4 { '4' }
    else if r == 5 { '5' } else if r == 6 { '6' } else if r == 7 { '7' } else { '8' }
}

/// Name of a square, such as "e4" (the `SQUARENAME` table).
pub open spec fn square_name(sq: int) -> Seq<char> {
    seq![file_char(file_of(sq)), rank_char(rank_of(sq))]
}

pub fn file_to_char(f: i32) -> (c: char)
    requires
        1 <= f <= 8,
    ensures
        c == file_char(f as int),
{
    if f == 1 { 'a' } else if f == 2 { 'b' } else if f == 3 { 'c' } else if f == 4 { 'd' }
    else if f == 5 { 'e' } else if f == 6 { 'f' } else if f == 7 { 'g' } else { 'h' }
}

pub fn rank_to_char(r: i32) -> (c: char)
    requires
        1 <= r <= 8,
    ensures
        c == rank_char(r as int),
{
    if r == 1 { '1' } else if r == 2 { '2' } else if r == 3 { '3' } else if r == 4 { '4' }
    else if r == 5 { '5' } else if r == 6 { '6' } else if r == 7 { '7' } else { '8' }
}

/// Appends the name of square `sq` ("a1".."h8").
pub fn push_square_name(v: &mut Vec<char>, sq: usize)
    requires
        sq < 64,
    ensures
        final(v)@ == old(v)@ + square_name(sq as int),
{
    v.push(file_to_char(files(sq)));
    v.push(rank_to_char(ranks(sq)));
    assert(final(v)@ == old(v)@ + square_name(sq as int));
}

/// Character of a piece code in FEN (the `REAL_PIECENAMES` table): '*' for no piece.
pub open spec fn real_piece_char(p: int) -> char {
    if p == 1 { 'P' } else if p == 2 { 'K' } else if p == 3 { 'N' } else if p == 5 { 'B' }
    else if p == 6 { 'R' } else if p == 7 { 'Q' } else if p == 9 { 'p' } else if p == 10 { 'k' }
    else if p == 11 { 'n' } else if p == 13 { 'b' } else if p == 14 { 'r' } else if p == 15 { 'q' }
    else { '*' }
}

pub fn real_piece_name(p: i32) -> (c: char)
    ensures
        c == real_piece_char(p as int),
{
    if p == 1 { 'P' } else if p == 2 { 'K' } else if p == 3 { 'N' } else if p == 5 { 'B' }
    else if p == 6 { 'R' } else if p == 7 { 'Q' } else if p == 9 { 'p' } else if p == 10 { 'k' }
    else if p == 11 { 'n' } else if p == 13 { 'b' } else if p == 14 { 'r' } else if p == 15 { 'q' }
    else { '*' }
}

/// Letter of a piece kind in SAN (the `PIECECHARS` table): a blank for
/// pawns and for codes of no piece.
pub open spec fn san_piece_chars(p: int) -> Seq<char> {
    let k = p % 8;
    if k == 2 { seq!['K'] } else if k == 3 { seq!['N'] } else if k == 5 { seq!['B'] }
    else if k == 6 { seq!['R'] } else if k == 7 { seq!['Q'] } else { seq![' '] }
}

pub fn push_san_piece(v: &mut Vec<char>, p: u32)
    ensures
        final(v)@ == old(v)@ + san_piece_chars(p as int),
{
    let k = p % 8;
    if k == 2 { v.push('K'); } else if k == 3 { v.push('N'); } else if k == 5 { v.push('B'); }
    else if k == 6 { v.push('R'); } else if k == 7 { v.push('Q'); } else { v.push(' '); }
    assert(final(v)@ == old(v)@ + san_piece_chars(p as int));
}

}
