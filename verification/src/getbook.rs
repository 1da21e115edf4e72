use vstd::prelude::*;
use crate::board::Board;
use crate::globs::{WHITE_PAWN, WHITE_KNIGHT, WHITE_BISHOP, WHITE_ROOK, WHITE_QUEEN, WHITE_KING, BLACK_PAWN,
    BLACK_KNIGHT, BLACK_BISHOP, BLACK_ROOK, BLACK_QUEEN, BLACK_KING};
use crate::strutil::string_from_chars;

verus! {

// Opening books in the Polyglot format: the position's key (a XOR of
// random numbers chosen by the pieces, the castling rights, the
// en-passant file and the side to move) and the 16-byte entries of the
// book, sorted by key: key (8 bytes), move (2), weight (2), learn (4), all
// big-endian.

pub fn get_col(sq: usize) -> (r: usize)
    ensures
        r == sq % 8,
{
    sq % 8
}

pub fn get_row(sq: usize) -> (r: usize)
    ensures
        r == sq / 8,
{
    sq / 8
}

/// The square to the left, none on the a-file.
pub open spec fn left_of(sq: int) -> Option<int> {
    if sq == 0 || sq == 8 || sq == 16 || sq == 24 || sq == 32 || sq == 40 || sq == 48 || sq == 56 {
        None
    } else {
        Some(sq - 1)
    }
}

/// The square to the right, none on the h-file.
pub open spec fn right_of(sq: int) -> Option<int> {
    if sq == 7 || sq == 15 || sq == 23 || sq == 31 || sq == 39 || sq == 47 || sq == 55 || sq == 63 {
        None
    } else {
        Some(sq + 1)
    }
}

pub fn get_left(sq: usize) -> (r: Option<usize>)
    ensures
        r == (match left_of(sq as int) { Some(x) => Some(x as usize), None => None }),
{
    if sq == 0 || sq == 8 || sq == 16 || sq == 24 || sq == 32 || sq == 40 || sq == 48 || sq == 56 {
        None
    } else {
        Some(sq - 1)
    }
}

pub fn get_right(sq: usize) -> (r: Option<usize>)
    requires
        sq < usize::MAX,
    ensures
        r == (match right_of(sq as int) { Some(x) => Some(x as usize), None => None }),
{
    if sq == 7 || sq == 15 || sq == 23 || sq == 31 || sq == 39 || sq == 47 || sq == 55 || sq == 63 {
        None
    } else {
        Some(sq + 1)
    }
}

#[derive(Debug, Copy, Clone, PartialEq, Eq, Structural, Hash)]
pub enum Side {
    White,
    Black,
}

#[derive(Debug, Copy, Clone, PartialEq, Eq, Structural, Hash)]
pub enum PieceType {
    Pawn,
    Knight,
    Bishop,
    Rook,
    Queen,
    King,
}

pub open spec fn type_index(t: PieceType) -> int {
    match t {
        PieceType::Pawn => 0,
        PieceType::Knight => 1,
        PieceType::Bishop => 2,
        PieceType::Rook => 3,
        PieceType::Queen => 4,
        PieceType::King => 5,
    }
}

impl PieceType {
    pub fn index(self) -> (r: usize)
        ensures
            r == type_index(self),
    {
        match self {
            PieceType::Pawn => 0,
            PieceType::Knight => 1,
            PieceType::Bishop => 2,
            PieceType::Rook => 3,
            PieceType::Queen => 4,
            PieceType::King => 5,
        }
    }
}

#[derive(Debug, Copy, Clone)]
pub struct Square {
    pub rank: usize,
    pub file: usize,
}

impl Square {
    pub open spec fn on_board(self) -> bool {
        self.rank < 8 && self.file < 8
    }
}

/// The random numbers of the Polyglot key: 768 for the pieces, 4 for the
/// castling rights, 8 for the en-passant files, 1 for the side to move.
pub struct PolyglotRandom {
    pub piece: Vec<u64>,
    pub castle: Vec<u64>,
    pub en_passant: Vec<u64>,
    pub turn: u64,
}

impl PolyglotRandom {
    pub open spec fn wf(self) -> bool {
        &&& self.piece.len() == 768
        &&& self.castle.len() == 4
        &&& self.en_passant.len() == 8
    }
}

#[derive(Debug, Copy, Clone)]
pub struct Piece {
    pub piece_type: PieceType,
    pub side: Side,
    pub square: Square,
}

/// The random number of a piece: by its kind (white after black of a
/// type) and its square.
pub open spec fn piece_hash(p: Piece, keys: PolyglotRandom) -> u64 {
    let kind = type_index(p.piece_type) * 2 + if p.side == Side::White { 1int } else { 0int };
    keys.piece[64 * kind + 8 * p.square.rank + p.square.file]
}

impl Piece {
    pub fn polyglot_hash(&self, keys: &PolyglotRandom) -> (r: u64)
        requires
            keys.wf(),
            self.square.on_board(),
        ensures
            r == piece_hash(*self, *keys),
    {
        let white: usize = if self.side == Side::White { 1 } else { 0 };
        let kind = self.piece_type.index() * 2 + white;
        keys.piece[64 * kind + 8 * self.square.rank + self.square.file]
    }
}

#[derive(Debug, Copy, Clone)]
pub struct CastleRights {
    pub queen_side: bool,
    pub king_side: bool,
}

/// The castling part of the key: for white the first two numbers, for
/// black the last two; king side first.
pub open spec fn castle_hash(c: CastleRights, side: Side, keys: PolyglotRandom) -> u64 {
    let base = if side == Side::White { 0int } else { 2int };
    (if c.king_side { keys.castle[base] } else { 0u64 }) ^ (if c.queen_side { keys.castle[base + 1] } else {
        0u64
    })
}

impl CastleRights {
    pub fn polyglot_hash(&self, side: Side, keys: &PolyglotRandom) -> (r: u64)
        requires
            keys.wf(),
        ensures
            r == castle_hash(*self, side, *keys),
    {
        let mut hash: u64 = 0;
        let base: usize = if side == Side::White { 0 } else { 2 };
        if self.king_side {
            hash = hash ^ keys.castle[base];
        }
        if self.queen_side {
            hash = hash ^ keys.castle[base + 1];
        }
        proof {
            let a = keys.castle[base as int];
            let b = keys.castle[base as int + 1];
            assert(0u64 ^ a == a && 0u64 ^ b == b && a ^ 0u64 == a && 0u64 ^ 0u64 == 0u64) by (bit_vector);
        }
        hash
    }
}


pub struct PolyglotKey {
    pub pieces: Vec<Piece>,
    pub white_castle: CastleRights,
    pub black_castle: CastleRights,
    pub en_passant_file: Option<usize>,
    pub turn: Side,
}

/// The XOR of the random numbers of the pieces.
pub open spec fn pieces_hash(ps: Seq<Piece>, keys: PolyglotRandom) -> u64
    decreases ps.len(),
{
    if ps.len() == 0 { 0 } else { pieces_hash(ps.drop_last(), keys) ^ piece_hash(ps.last(), keys) }
}

/// The Polyglot key of the position the fields describe.
pub open spec fn key_hash(k: PolyglotKey, keys: PolyglotRandom) -> u64 {
    let h = pieces_hash(k.pieces@, keys) ^ castle_hash(k.white_castle, Side::White, keys) ^ castle_hash(
        k.black_castle,
        Side::Black,
        keys,
    );
    let h2 = match k.en_passant_file {
        Some(f) => h ^ keys.en_passant[f as int],
        None => h,
    };
    if k.turn == Side::White { h2 ^ keys.turn } else { h2 }
}

/// The piece, if any, that a square's code stands for.
pub open spec fn code_piece(code: i32, sq: int) -> Option<Piece> {
    let square = Square { rank: (sq / 8) as usize, file: (sq % 8) as usize };
    let t = if code == 1 || code == 9 { Some(PieceType::Pawn) } else if code == 2 || code == 10 {
        Some(PieceType::King)
    } else if code == 3 || code == 11 { Some(PieceType::Knight) } else if code == 5 || code == 13 {
        Some(PieceType::Bishop)
    } else if code == 6 || code == 14 { Some(PieceType::Rook) } else if code == 7 || code == 15 {
        Some(PieceType::Queen)
    } else { None };
    match t {
        Some(t) => Some(Piece { piece_type: t, side: if code < 8 { Side::White } else { Side::Black }, square }),
        None => None,
    }
}

/// The pieces on the squares below `n`, a1 first.
pub open spec fn board_pieces(sq: Seq<i32>, n: int) -> Seq<Piece>
    decreases n,
{
    if n <= 0 {
        seq![]
    } else {
        board_pieces(sq, n - 1) + match code_piece(sq[n - 1], n - 1) {
            Some(p) => seq![p],
            None => seq![],
        }
    }
}

/// The board's code for a piece of type `t` and side `s` (see `globs`).
pub open spec fn board_code(t: PieceType, s: Side) -> int {
    let white = s == Side::White;
    match t {
        PieceType::Pawn => if white { WHITE_PAWN as int } else { BLACK_PAWN as int },
        PieceType::Knight => if white { WHITE_KNIGHT as int } else { BLACK_KNIGHT as int },
        PieceType::Bishop => if white { WHITE_BISHOP as int } else { BLACK_BISHOP as int },
        PieceType::Rook => if white { WHITE_ROOK as int } else { BLACK_ROOK as int },
        PieceType::Queen => if white { WHITE_QUEEN as int } else { BLACK_QUEEN as int },
        PieceType::King => if white { WHITE_KING as int } else { BLACK_KING as int },
    }
}

proof fn lemma_board_pieces(sq: Seq<i32>, n: int)
    requires
        0 <= n <= 64,
    ensures
        forall|i: int| 0 <= i < board_pieces(sq, n).len() ==> {
            let p = #[trigger] board_pieces(sq, n)[i];
            &&& p.square.on_board()
            &&& 8 * p.square.rank + p.square.file < n
            &&& sq[8 * p.square.rank + p.square.file] as int == board_code(p.piece_type, p.side)
        },
    decreases n,
{
    if n > 0 {
        lemma_board_pieces(sq, n - 1);
        let prev = board_pieces(sq, n - 1);
        let cur = board_pieces(sq, n);
        assert forall|i: int| 0 <= i < cur.len() implies {
            let p = #[trigger] cur[i];
            &&& p.square.on_board()
            &&& 8 * p.square.rank + p.square.file < n
            &&& sq[8 * p.square.rank + p.square.file] as int == board_code(p.piece_type, p.side)
        } by {
            if i < prev.len() {
                assert(cur[i] == prev[i]);
            } else {
                let q = (n - 1) / 8;
                let r = (n - 1) % 8;
                assert(8 * q + r == n - 1);
            }
        }
    }
}

proof fn lemma_board_pieces_all(sq: Seq<i32>, n: int)
    requires
        0 <= n <= 64,
    ensures
        forall|s: int| 0 <= s < n && crate::globs::is_piece(#[trigger] sq[s] as int) ==> exists|i: int|
            0 <= i < board_pieces(sq, n).len() && #[trigger] board_pieces(sq, n)[i].square.rank == s / 8
                && board_pieces(sq, n)[i].square.file == s % 8,
    decreases n,
{
    if n > 0 {
        lemma_board_pieces_all(sq, n - 1);
        let prev = board_pieces(sq, n - 1);
        let cur = board_pieces(sq, n);
        let extra: Seq<Piece> = match code_piece(sq[n - 1], n - 1) {
            Some(p) => seq![p],
            None => seq![],
        };
        assert(cur == prev + extra);
        assert forall|s: int| 0 <= s < n && crate::globs::is_piece(#[trigger] sq[s] as int) implies exists|i: int|
            0 <= i < cur.len() && #[trigger] cur[i].square.rank == s / 8 && cur[i].square.file == s % 8 by {
            if s < n - 1 {
                let i = choose|i: int| 0 <= i < prev.len() && #[trigger] prev[i].square.rank == s / 8
                    && prev[i].square.file == s % 8;
                assert(cur[i] == prev[i]);
                assert(cur[i].square.rank == s / 8 && cur[i].square.file == s % 8);
            } else {
                assert(code_piece(sq[n - 1], n - 1) is Some);
                let k = prev.len() as int;
                assert(cur[k] == code_piece(sq[n - 1], n - 1)->0);
                assert(cur[k].square.rank == s / 8 && cur[k].square.file == s % 8);
            }
        }
    }
}

/// The key of a board lists exactly the pieces on the board: each piece of
/// the key is the piece the board holds on its square (its type and side
/// give the board's code there: a knight code gives a knight, a bishop code
/// a bishop, ...), and every occupied square has its piece in the key.
pub proof fn law_key_pieces_match_board(b: Board)
    ensures
        forall|i: int| 0 <= i < board_pieces(b.square@, 64).len() ==> {
            let p = #[trigger] board_pieces(b.square@, 64)[i];
            &&& p.square.on_board()
            &&& b.square[8 * p.square.rank + p.square.file] as int == board_code(p.piece_type, p.side)
        },
        forall|s: int| 0 <= s < 64 && crate::globs::is_piece(#[trigger] b.square[s] as int) ==> exists|i: int|
            0 <= i < board_pieces(b.square@, 64).len() && #[trigger] board_pieces(b.square@, 64)[i].square.rank
                == s / 8 && board_pieces(b.square@, 64)[i].square.file == s % 8,
{
    lemma_board_pieces(b.square@, 64);
    lemma_board_pieces_all(b.square@, 64);
}

/// The castling rights of the key: the board's rights count 1 for the
/// king side and 2 for the queen side.
pub proof fn law_key_castle_rights(c: u8)
    requires
        c <= 3,
    ensures
        rights_of(c).king_side == (c % 2 == 1),
        rights_of(c).queen_side == (c >= 2),
{
}

/// The castling rights as a bit set (1 short, 2 long); other values give none.
pub open spec fn rights_of(c: u8) -> CastleRights {
    if c == 1 {
        CastleRights { queen_side: false, king_side: true }
    } else if c == 2 {
        CastleRights { queen_side: true, king_side: false }
    } else if c == 3 {
        CastleRights { queen_side: true, king_side: true }
    } else {
        CastleRights { queen_side: false, king_side: false }
    }
}

/// The square of the pawn that could be taken en passant (the en-passant
/// square itself when there is none).
pub open spec fn ep_pawn_square(b: Board) -> int {
    if b.ep_square > 0 {
        if b.next_move == 0 { b.ep_square - 8 } else { b.ep_square + 8 }
    } else {
        b.ep_square as int
    }
}

/// A pawn of the side to move stands on `sq`.
pub open spec fn own_pawn_on(b: Board, sq: int) -> bool {
    (b.square[sq] == 1 && b.next_move == 0) || (b.square[sq] == 9 && b.next_move == 1)
}

/// The en-passant file of the key: the file of that pawn when a pawn of
/// the side to move stands beside it.
pub open spec fn ep_file_of(b: Board) -> Option<usize> {
    let p = ep_pawn_square(b);
    let by_left = match left_of(p) { Some(l) => own_pawn_on(b, l), None => false };
    let by_right = match right_of(p) { Some(r) => own_pawn_on(b, r), None => false };
    if by_left || by_right { Some((p % 8) as usize) } else { None }
}

fn own_pawn_exec(b: &Board, sq: usize) -> (r: bool)
    requires
        sq < 64,
    ensures
        r == own_pawn_on(*b, sq as int),
{
    (b.square[sq] == 1 && b.next_move == 0) || (b.square[sq] == 9 && b.next_move == 1)
}

fn code_piece_exec(code: i32, sq: usize) -> (r: Option<Piece>)
    requires
        sq < 64,
    ensures
        r == code_piece(code, sq as int),
{
    let square = Square { rank: sq / 8, file: sq % 8 };
    let t = if code == 1 || code == 9 { Some(PieceType::Pawn) } else if code == 2 || code == 10 {
        Some(PieceType::King)
    } else if code == 3 || code == 11 { Some(PieceType::Knight) } else if code == 5 || code == 13 {
        Some(PieceType::Bishop)
    } else if code == 6 || code == 14 { Some(PieceType::Rook) } else if code == 7 || code == 15 {
        Some(PieceType::Queen)
    } else { None };
    match t {
        Some(t) => Some(Piece { piece_type: t, side: if code < 8 { Side::White } else { Side::Black }, square }),
        None => None,
    }
}

impl PolyglotKey {
    pub fn polyglot_hash(&self, keys: &PolyglotRandom) -> (r: u64)
        requires
            keys.wf(),
            forall|i: int| 0 <= i < self.pieces.len() ==> (#[trigger] self.pieces[i]).square.on_board(),
            match self.en_passant_file { Some(f) => f < 8, None => true },
        ensures
            r == key_hash(*self, *keys),
    {
        let mut hash: u64 = 0;
        let mut i: usize = 0;
        while i < self.pieces.len()
            invariant
                keys.wf(),
                i <= self.pieces.len(),
                forall|j: int| 0 <= j < self.pieces.len() ==> (#[trigger] self.pieces[j]).square.on_board(),
                hash == pieces_hash(self.pieces@.take(i as int), *keys),
            decreases self.pieces.len() - i,
        {
            assert(self.pieces@.take(i as int + 1).drop_last() =~= self.pieces@.take(i as int));
            hash = hash ^ self.pieces[i].polyglot_hash(keys);
            i = i + 1;
        }
        assert(self.pieces@.take(i as int) =~= self.pieces@);
        hash = hash ^ self.white_castle.polyglot_hash(Side::White, keys);
        hash = hash ^ self.black_castle.polyglot_hash(Side::Black, keys);
        if let Some(file) = self.en_passant_file {
            hash = hash ^ keys.en_passant[file];
        }
        if self.turn == Side::White {
            hash = hash ^ keys.turn;
        }
        hash
    }

    /// The key fields of the position on the board.
    pub fn from_board(board: &Board) -> (k: Self)
        requires
            board.wf(),
            0 <= ep_pawn_square(*board) < 64,
        ensures
            k.pieces@ == board_pieces(board.square@, 64),
            k.white_castle == rights_of(board.castle_white),
            k.black_castle == rights_of(board.castle_black),
            k.en_passant_file == ep_file_of(*board),
            k.turn == (if board.next_move == 0 { Side::White } else { Side::Black }),
    {
        let mut pieces: Vec<Piece> = Vec::new();
        let mut i: usize = 0;
        while i < 64
            invariant
                i <= 64,
                pieces@ == board_pieces(board.square@, i as int),
            decreases 64 - i,
        {
            match code_piece_exec(board.square[i], i) {
                Some(p) => { pieces.push(p); },
                None => {},
            }
            i = i + 1;
        }
        let cw = board.castle_white;
        let w_castles = if cw == 1 { CastleRights { queen_side: false, king_side: true } } else if cw == 2 {
            CastleRights { queen_side: true, king_side: false }
        } else if cw == 3 { CastleRights { queen_side: true, king_side: true } } else {
            CastleRights { queen_side: false, king_side: false }
        };
        let cb = board.castle_black;
        let b_castles = if cb == 1 { CastleRights { queen_side: false, king_side: true } } else if cb == 2 {
            CastleRights { queen_side: true, king_side: false }
        } else if cb == 3 { CastleRights { queen_side: true, king_side: true } } else {
            CastleRights { queen_side: false, king_side: false }
        };
        let mut pawn_to_capture_sq = board.ep_square;
        if pawn_to_capture_sq > 0 {
            if board.next_move == 0 {
                pawn_to_capture_sq = pawn_to_capture_sq - 8;
            } else {
                pawn_to_capture_sq = pawn_to_capture_sq + 8;
            }
        }
        let p = pawn_to_capture_sq as usize;
        let by_left = match get_left(p) { Some(l) => own_pawn_exec(board, l), None => false };
        let by_right = match get_right(p) { Some(r) => own_pawn_exec(board, r), None => false };
        let col_passant = if by_left || by_right { Some(get_col(p)) } else { None };
        let turn = if board.next_move == 0 { Side::White } else { Side::Black };
        PolyglotKey { pieces, white_castle: w_castles, black_castle: b_castles, en_passant_file: col_passant, turn }
    }
}


#[derive(Debug, Copy, Clone)]
pub struct Move {
    pub source: Square,
    pub dest: Square,
    pub promotion: Option<PieceType>,
}

/// The promotion piece of a book move's promotion field (0 none, 1 knight,
/// 2 bishop, 3 rook, 4 queen).
pub open spec fn promo_of(p: u16) -> Option<PieceType> {
    if p == 1 { Some(PieceType::Knight) } else if p == 2 { Some(PieceType::Bishop) } else if p == 3 {
        Some(PieceType::Rook)
    } else if p == 4 { Some(PieceType::Queen) } else { None }
}

/// The move packed in 16 bits: to file, to rank, from file, from rank and
/// promotion, three bits each from the lowest.
pub open spec fn move_of(mv: u16) -> Move {
    Move {
        dest: Square { file: (mv & 7) as usize, rank: ((mv >> 3u16) & 7) as usize },
        source: Square { file: ((mv >> 6u16) & 7) as usize, rank: ((mv >> 9u16) & 7) as usize },
        promotion: promo_of((mv >> 12u16) & 7),
    }
}

/// The promotion field holds 0 to 4.
pub open spec fn move_ok(mv: u16) -> bool {
    (mv >> 12u16) & 7 <= 4
}

proof fn lemma_fields_small(mv: u16)
    ensures
        mv & 7 < 8,
        (mv >> 3u16) & 7 < 8,
        (mv >> 6u16) & 7 < 8,
        (mv >> 9u16) & 7 < 8,
        (mv >> 12u16) & 7 < 8,
{
    assert(mv & 7 < 8 && (mv >> 3u16) & 7 < 8 && (mv >> 6u16) & 7 < 8 && (mv >> 9u16) & 7 < 8
        && (mv >> 12u16) & 7 < 8) by (bit_vector);
}

impl Move {
    pub fn from_u16(mv: u16) -> (m: Self)
        requires
            move_ok(mv),
        ensures
            m == move_of(mv),
            m.source.on_board(),
            m.dest.on_board(),
    {
        proof { lemma_fields_small(mv); }
        let p = (mv >> 12) & 7;
        Move {
            dest: Square { file: (mv & 7) as usize, rank: ((mv >> 3) & 7) as usize },
            source: Square { file: ((mv >> 6) & 7) as usize, rank: ((mv >> 9) & 7) as usize },
            promotion: if p == 1 { Some(PieceType::Knight) } else if p == 2 { Some(PieceType::Bishop) }
                else if p == 3 { Some(PieceType::Rook) } else if p == 4 { Some(PieceType::Queen) } else { None },
        }
    }
}

pub open spec fn col_char(c: int) -> char {
    if c == 0 { 'a' } else if c == 1 { 'b' } else if c == 2 { 'c' } else if c == 3 { 'd' }
    else if c == 4 { 'e' } else if c == 5 { 'f' } else if c == 6 { 'g' } else { 'h' }
}

pub open spec fn row_char(r: int) -> char {
    if r == 0 { '1' } else if r == 1 { '2' } else if r == 2 { '3' } else if r == 3 { '4' }
    else if r == 4 { '5' } else if r == 5 { '6' } else if r == 6 { '7' } else { '8' }
}

pub open spec fn promo_letter(p: Option<PieceType>) -> Seq<char> {
    match p {
        None => seq![],
        Some(PieceType::Pawn) => seq!['p'],
        Some(PieceType::Knight) => seq!['n'],
        Some(PieceType::Bishop) => seq!['b'],
        Some(PieceType::Rook) => seq!['r'],
        Some(PieceType::Queen) => seq!['q'],
        Some(PieceType::King) => seq!['k'],
    }
}

/// A book move in UCI, with the king-takes-rook castlings of the format
/// turned into the king's two-square moves.
pub open spec fn book_uci(m: Move) -> Seq<char> {
    let u = seq![col_char(m.source.file as int), row_char(m.source.rank as int), col_char(m.dest.file as int),
        row_char(m.dest.rank as int)] + promo_letter(m.promotion);
    if u == seq!['e', '1', 'h', '1'] { seq!['e', '1', 'g', '1'] }
    else if u == seq!['e', '1', 'a', '1'] { seq!['e', '1', 'c', '1'] }
    else if u == seq!['e', '8', 'h', '8'] { seq!['e', '8', 'g', '8'] }
    else if u == seq!['e', '8', 'a', '8'] { seq!['e', '8', 'c', '8'] }
    else { u }
}

fn col_char_exec(c: usize) -> (r: char)
    ensures
        r == col_char(c as int),
{
    if c == 0 { 'a' } else if c == 1 { 'b' } else if c == 2 { 'c' } else if c == 3 { 'd' }
    else if c == 4 { 'e' } else if c == 5 { 'f' } else if c == 6 { 'g' } else { 'h' }
}

fn row_char_exec(r: usize) -> (c: char)
    ensures
        c == row_char(r as int),
{
    if r == 0 { '1' } else if r == 1 { '2' } else if r == 2 { '3' } else if r == 3 { '4' }
    else if r == 4 { '5' } else if r == 5 { '6' } else if r == 6 { '7' } else { '8' }
}

pub fn get_uci_move(mov: Move) -> (s: String)
    requires
        mov.source.on_board(),
        mov.dest.on_board(),
    ensures
        s@ == book_uci(mov),
{
    let mut v: Vec<char> = Vec::new();
    let c0 = col_char_exec(mov.source.file);
    let r0 = row_char_exec(mov.source.rank);
    let c1 = col_char_exec(mov.dest.file);
    let r1 = row_char_exec(mov.dest.rank);
    v.push(c0);
    v.push(r0);
    v.push(c1);
    v.push(r1);
    match mov.promotion {
        None => {},
        Some(PieceType::Pawn) => { v.push('p'); },
        Some(PieceType::Knight) => { v.push('n'); },
        Some(PieceType::Bishop) => { v.push('b'); },
        Some(PieceType::Rook) => { v.push('r'); },
        Some(PieceType::Queen) => { v.push('q'); },
        Some(PieceType::King) => { v.push('k'); },
    }
    let ghost u = v@;
    assert(u =~= seq![c0, r0, c1, r1] + promo_letter(mov.promotion));
    if v.len() == 4 && c0 == 'e' && r0 == '1' && c1 == 'h' && r1 == '1' {
        v.set(2, 'g');
        assert(u =~= seq!['e', '1', 'h', '1']);
    } else if v.len() == 4 && c0 == 'e' && r0 == '1' && c1 == 'a' && r1 == '1' {
        v.set(2, 'c');
        assert(u =~= seq!['e', '1', 'a', '1']);
    } else if v.len() == 4 && c0 == 'e' && r0 == '8' && c1 == 'h' && r1 == '8' {
        v.set(2, 'g');
        assert(u =~= seq!['e', '8', 'h', '8']);
    } else if v.len() == 4 && c0 == 'e' && r0 == '8' && c1 == 'a' && r1 == '8' {
        v.set(2, 'c');
        assert(u =~= seq!['e', '8', 'a', '8']);
    } else {
        assert(u != seq!['e', '1', 'h', '1'] && u != seq!['e', '1', 'a', '1'] && u != seq!['e', '8', 'h', '8']
            && u != seq!['e', '8', 'a', '8']) by {
            if u.len() == 4 {
                assert(u[0] == c0 && u[1] == r0 && u[2] == c1 && u[3] == r1);
            }
        }
    }
    assert(v@ =~= book_uci(mov));
    string_from_chars(&v)
}

#[derive(Copy, Clone, Debug)]
pub struct PolyglotEntry {
    pub mv: Move,
    pub weight: u16,
}

/// A big-endian 16-bit number.
pub open spec fn be16(b0: u8, b1: u8) -> u16 {
    (b0 * 256 + b1) as u16
}

impl PolyglotEntry {
    /// The move and weight of an entry from its bytes after the key.
    pub fn from_bytes(bytes: &[u8]) -> (e: Self)
        requires
            bytes@.len() >= 4,
            move_ok(be16(bytes@[0], bytes@[1])),
        ensures
            e.mv == move_of(be16(bytes@[0], bytes@[1])),
            e.weight == be16(bytes@[2], bytes@[3]),
    {
        let mv = (bytes[0] as u16) * 256 + bytes[1] as u16;
        let weight = (bytes[2] as u16) * 256 + bytes[3] as u16;
        PolyglotEntry { mv: Move::from_u16(mv), weight }
    }
}


/// The key of entry `i` of the book: its first eight bytes, big-endian.
pub open spec fn key_at(data: Seq<u8>, i: int) -> int {
    let o = i * 16;
    ((((((data[o] * 256 + data[o + 1]) * 256 + data[o + 2]) * 256 + data[o + 3]) * 256 + data[o + 4]) * 256
        + data[o + 5]) * 256 + data[o + 6]) * 256 + data[o + 7]
}

/// The binary search for the first entry whose key is not below `hash`,
/// between `left` and `right`; also whether some key it looked at equals
/// `hash`.
pub open spec fn lower_search(data: Seq<u8>, hash: u64, left: int, right: int, found: bool) -> (int, bool)
    decreases right - left,
{
    if left < right {
        let mid = (left + right) / 2;
        let k = key_at(data, mid);
        if k < hash {
            lower_search(data, hash, mid + 1, right, found)
        } else {
            lower_search(data, hash, left, mid, found || k == hash)
        }
    } else {
        (left, found)
    }
}

/// The binary search for the last entry whose key is not above `hash`.
pub open spec fn upper_search(data: Seq<u8>, hash: u64, left: int, right: int) -> int
    decreases right - left,
{
    if left < right {
        let mid = (left + right + 1) / 2;
        if key_at(data, mid) > hash {
            upper_search(data, hash, left, mid - 1)
        } else {
            upper_search(data, hash, mid, right)
        }
    } else {
        right
    }
}

/// The move and weight of entry `k`.
pub open spec fn entry_of(data: Seq<u8>, k: int) -> PolyglotEntry {
    let o = k * 16 + 8;
    PolyglotEntry { mv: move_of(be16(data[o], data[o + 1])), weight: be16(data[o + 2], data[o + 3]) }
}

/// The entries of a book with `len` entries for a position with key
/// `hash`: none when the search met no such key, else those from the first
/// to the last found.
pub open spec fn book_entries(data: Seq<u8>, len: int, hash: u64) -> Seq<PolyglotEntry> {
    let (lower, found) = lower_search(data, hash, 0, len - 1, false);
    if !found {
        seq![]
    } else {
        let upper = upper_search(data, hash, 0, len - 1);
        Seq::new((upper + 1 - lower) as nat, |j: int| entry_of(data, lower + j))
    }
}

/// The book can be searched for `hash`: it has an entry, and the entries
/// the search returns hold promotion fields of 0 to 4.
pub open spec fn book_ok(data: Seq<u8>, len: int, hash: u64) -> bool {
    let (lower, found) = lower_search(data, hash, 0, len - 1, false);
    let upper = upper_search(data, hash, 0, len - 1);
    &&& len >= 1
    &&& found ==> lower <= upper + 1
    &&& found ==> forall|k: int| lower <= k <= upper ==> #[trigger] move_ok(be16(data[k * 16 + 8], data[k * 16 + 9]))
}

proof fn lemma_lower_bounds(data: Seq<u8>, hash: u64, left: int, right: int, found: bool)
    requires
        0 <= left <= right,
    ensures
        left <= lower_search(data, hash, left, right, found).0 <= right,
    decreases right - left,
{
    if left < right {
        let mid = (left + right) / 2;
        if key_at(data, mid) < hash {
            lemma_lower_bounds(data, hash, mid + 1, right, found);
        } else {
            lemma_lower_bounds(data, hash, left, mid, found || key_at(data, mid) == hash);
        }
    }
}

proof fn lemma_upper_bounds(data: Seq<u8>, hash: u64, left: int, right: int)
    requires
        0 <= left <= right,
    ensures
        left <= upper_search(data, hash, left, right) <= right,
    decreases right - left,
{
    if left < right {
        let mid = (left + right + 1) / 2;
        if key_at(data, mid) > hash {
            lemma_upper_bounds(data, hash, left, mid - 1);
        } else {
            lemma_upper_bounds(data, hash, mid, right);
        }
    }
}

/// The first `len` entries of the book are sorted by key, as a book file is.
pub open spec fn keys_sorted(data: Seq<u8>, len: int) -> bool {
    forall|i: int, j: int| 0 <= i <= j < len ==> #[trigger] key_at(data, i) <= #[trigger] key_at(data, j)
}

/// On sorted keys, the search for the first key not below `hash` stops on
/// the first such entry (or on `last`, where every key is below), and it has
/// met `hash` exactly when it stops on an entry with that key that is not
/// `last`, or on a looked-at `last`.
proof fn lemma_lower_sorted(data: Seq<u8>, len: int, hash: u64, left: int, right: int, found: bool)
    requires
        keys_sorted(data, len),
        0 <= left <= right <= len - 1,
        forall|k: int| 0 <= k < left ==> key_at(data, k) < hash,
        right == len - 1 || key_at(data, right) >= hash,
        found ==> right < len - 1 && key_at(data, right) == hash,
        right < len - 1 && key_at(data, right) == hash ==> found,
    ensures
        ({
            let (l, f) = lower_search(data, hash, left, right, found);
            &&& 0 <= l <= len - 1
            &&& forall|k: int| 0 <= k < l ==> key_at(data, k) < hash
            &&& l == len - 1 || key_at(data, l) >= hash
            &&& f ==> key_at(data, l) == hash
            &&& l < len - 1 && key_at(data, l) == hash ==> f
        }),
    decreases right - left,
{
    if left < right {
        let mid = (left + right) / 2;
        let k = key_at(data, mid);
        if k < hash {
            assert forall|j: int| 0 <= j < mid + 1 implies key_at(data, j) < hash by {
                if j >= left {
                    assert(key_at(data, j) <= key_at(data, mid));
                }
            }
            lemma_lower_sorted(data, len, hash, mid + 1, right, found);
        } else {
            if found {
                assert(key_at(data, mid) <= key_at(data, right));
            }
            lemma_lower_sorted(data, len, hash, left, mid, found || k == hash);
        }
    }
}

/// On sorted keys, the search for the last key not above `hash` stops on
/// the last such entry (or on the first entry, where every key is above).
proof fn lemma_upper_sorted(data: Seq<u8>, len: int, hash: u64, left: int, right: int)
    requires
        keys_sorted(data, len),
        0 <= left <= right <= len - 1,
        left == 0 || key_at(data, left) <= hash,
        forall|k: int| right < k < len ==> key_at(data, k) > hash,
    ensures
        ({
            let u = upper_search(data, hash, left, right);
            &&& 0 <= u <= len - 1
            &&& u == 0 || key_at(data, u) <= hash
            &&& forall|k: int| u < k < len ==> key_at(data, k) > hash
        }),
    decreases right - left,
{
    if left < right {
        let mid = (left + right + 1) / 2;
        if key_at(data, mid) > hash {
            assert forall|j: int| mid - 1 < j < len implies key_at(data, j) > hash by {
                if j <= right {
                    assert(key_at(data, mid) <= key_at(data, j));
                }
            }
            lemma_upper_sorted(data, len, hash, left, mid - 1);
        } else {
            lemma_upper_sorted(data, len, hash, mid, right);
        }
    }
}

/// On a book sorted by key, the search gives exactly the entries whose key
/// is `hash`, in the book's order: the entries from the first to the last
/// it finds are those and only those with that key.  It finds them
/// whenever an entry before the last has the key; an entry with the key
/// that stands last and alone is not found.
pub proof fn law_book_entries_by_key(data: Seq<u8>, len: int, hash: u64)
    requires
        len >= 1,
        keys_sorted(data, len),
    ensures
        (exists|k: int| 0 <= k < len - 1 && key_at(data, k) == hash) ==> book_entries(data, len, hash).len() > 0,
        (forall|k: int| 0 <= k < len ==> key_at(data, k) != hash) ==> book_entries(data, len, hash).len() == 0,
        book_entries(data, len, hash).len() > 0 ==> ({
            let lower = lower_search(data, hash, 0, len - 1, false).0;
            let upper = upper_search(data, hash, 0, len - 1);
            &&& book_entries(data, len, hash) == Seq::new((upper + 1 - lower) as nat, |j: int| entry_of(data, lower + j))
            &&& forall|k: int| 0 <= k < len ==> (key_at(data, k) == hash <==> lower <= k <= upper)
        }),
{
    lemma_lower_sorted(data, len, hash, 0, len - 1, false);
    lemma_upper_sorted(data, len, hash, 0, len - 1);
    let (lower, found) = lower_search(data, hash, 0, len - 1, false);
    let upper = upper_search(data, hash, 0, len - 1);
    if exists|k: int| 0 <= k < len - 1 && key_at(data, k) == hash {
        let k0 = choose|k: int| 0 <= k < len - 1 && key_at(data, k) == hash;
        if lower > k0 {
            assert(key_at(data, k0) < hash);
        }
        if lower < k0 {
            assert(key_at(data, lower) <= key_at(data, k0));
        }
        assert(found);
    }
    if found {
        assert(key_at(data, lower) == hash);
        if upper < lower {
            assert(key_at(data, lower) > hash);
        }
        assert forall|k: int| 0 <= k < len implies (key_at(data, k) == hash <==> lower <= k <= upper) by {
            if lower <= k <= upper {
                assert(key_at(data, lower) <= key_at(data, k));
                if upper != 0 {
                    assert(key_at(data, k) <= key_at(data, upper));
                }
            }
        }
    }
}

/// An opening book held in memory.
pub struct PolyglotReader {
    pub inner: Vec<u8>,
    pub len: u64,
}

/// The key of entry `i`.
fn read_key(data: &Vec<u8>, i: u64) -> (k: u64)
    requires
        (i + 1) * 16 <= data.len(),
    ensures
        k == key_at(data@, i as int),
{
    let o = (i * 16) as usize;
    let mut k: u64 = data[o] as u64;
    k = k * 256 + data[o + 1] as u64;
    k = k * 256 + data[o + 2] as u64;
    k = k * 256 + data[o + 3] as u64;
    k = k * 256 + data[o + 4] as u64;
    k = k * 256 + data[o + 5] as u64;
    k = k * 256 + data[o + 6] as u64;
    k = k * 256 + data[o + 7] as u64;
    k
}

impl PolyglotReader {
    /// A reader over the bytes of a book.
    pub fn new(inner: Vec<u8>) -> (r: Self)
        ensures
            r.inner@ == inner@,
            r.len == inner.len() / 16,
    {
        let len = (inner.len() / 16) as u64;
        PolyglotReader { inner, len }
    }

    /// The book's entries for the position with key `key`.
    pub fn get(&self, key: &PolyglotKey, keys: &PolyglotRandom) -> (r: Vec<PolyglotEntry>)
        requires
            keys.wf(),
            forall|i: int| 0 <= i < key.pieces.len() ==> (#[trigger] key.pieces[i]).square.on_board(),
            match key.en_passant_file { Some(f) => f < 8, None => true },
            self.len * 16 <= self.inner.len(),
            book_ok(self.inner@, self.len as int, key_hash(*key, *keys)),
        ensures
            r@ == book_entries(self.inner@, self.len as int, key_hash(*key, *keys)),
    {
        let hash = key.polyglot_hash(keys);
        let ghost data = self.inner@;
        let mut entry_exists = false;
        let mut left: u64 = 0;
        let mut right: u64 = self.len - 1;
        while left < right
            invariant
                right < self.len,
                self.len * 16 <= self.inner.len(),
                data == self.inner@,
                lower_search(data, hash, left as int, right as int, entry_exists) == lower_search(data, hash, 0,
                    self.len - 1, false),
            decreases right - left,
        {
            let middle = (left + right) / 2;
            let entry_key = read_key(&self.inner, middle);
            if entry_key < hash {
                left = middle + 1;
            } else {
                if entry_key == hash {
                    entry_exists = true;
                }
                right = middle;
            }
        }
        if !entry_exists {
            return Vec::new();
        }
        let lower_bound = left;
        proof { lemma_lower_bounds(data, hash, 0, self.len - 1, false); }
        left = 0;
        right = self.len - 1;
        while left < right
            invariant
                left <= right < self.len,
                self.len * 16 <= self.inner.len(),
                data == self.inner@,
                upper_search(data, hash, left as int, right as int) == upper_search(data, hash, 0, self.len - 1),
            decreases right - left,
        {
            let middle = (left + right + 1) / 2;
            let entry_key = read_key(&self.inner, middle);
            if entry_key > hash {
                right = middle - 1;
            } else {
                left = middle;
            }
        }
        let upper_bound = right + 1;
        let mut entries: Vec<PolyglotEntry> = Vec::new();
        let mut k = lower_bound;
        while k < upper_bound
            invariant
                lower_bound <= upper_bound,
                lower_bound <= k <= upper_bound,
                upper_bound <= self.len,
                self.len * 16 <= self.inner.len(),
                data == self.inner@,
                lower_bound == lower_search(data, hash, 0, self.len - 1, false).0,
                upper_bound == upper_search(data, hash, 0, self.len - 1) + 1,
                forall|j: int| lower_bound <= j < upper_bound ==> #[trigger] move_ok(be16(data[j * 16 + 8], data[j * 16 + 9])),
                entries@ == Seq::new((k - lower_bound) as nat, |j: int| entry_of(data, lower_bound + j)),
            decreases upper_bound - k,
        {
            let o = (k * 16 + 8) as usize;
            let mv = (self.inner[o] as u16) * 256 + self.inner[o + 1] as u16;
            let weight = (self.inner[o + 2] as u16) * 256 + self.inner[o + 3] as u16;
            assert(move_ok(be16(data[k * 16 + 8], data[k * 16 + 9])));
            entries.push(PolyglotEntry { mv: Move::from_u16(mv), weight });
            k = k + 1;
            assert(entries@ =~= Seq::new((k - lower_bound) as nat, |j: int| entry_of(data, lower_bound + j)));
        }
        entries
    }
}

}
