use vstd::prelude::*;
use crate::board::{Board, initial_code, unmake_move_post};
use crate::globs::{rank_char, square_name, real_piece_char, MAX_PLY, MAX_MOV_BUFF};
use crate::legalmoves::{LegalMove, can_make, legal_moves, end_of_game, find_uci, played};
use crate::displaymove::{can_make_two, san_disambig_chars};
use crate::sanmove::{san_pick, san_readable};
use crate::fen::{fen_ok, fen_text, placement_fen, words, placement_squares, castle_rights, ep_value, parse_i32};
use crate::movim::uci_chars;
use crate::strutil::{chars_of, push_all, string_from_chars};

verus! {

// The chess engine's interface: a board, set up from FEN, moves played by
// UCI or SAN and taken back, FEN and a text picture of the position.

/// A board in the initial position, with its attack tables built.
pub fn new_board() -> (b: Board)
    ensures
        b.wf(),
        forall|i: int| 0 <= i < 64 ==> #[trigger] b.square[i] == initial_code(i),
        b.next_move == 0,
        b.castle_white == 3,
        b.castle_black == 3,
        b.ep_square == 0,
        b.fifty_move == 0,
        b.full_moves == 0,
        b.end_of_search == 0,
        b.move_buffer.len() == MAX_MOV_BUFF,
        forall|i: int| 0 <= i < MAX_PLY ==> #[trigger] b.move_buf_len[i] == 0,
{
    Board::new()
}

/// Sets the position up from a FEN (see `Board::setup_fen`).
pub fn set_fen(board: &mut Board, fen_str: &str)
    requires
        old(board).wf(),
        fen_ok(fen_str@),
    ensures
        ({
            let w = words(fen_str@);
            &&& final(board).wf()
            &&& final(board).square@ == placement_squares(w[0])
            &&& final(board).next_move == (if w[1] == seq!['b'] { 1u8 } else { 0u8 })
            &&& final(board).castle_white == castle_rights(w[2], 'K', 'Q')
            &&& final(board).castle_black == castle_rights(w[2], 'k', 'q')
            &&& final(board).ep_square == ep_value(w[3])
            &&& final(board).fifty_move == parse_i32(w[4])->0
            &&& final(board).full_moves == parse_i32(w[5])->0
        }),
        final(board).view_rotated == old(board).view_rotated,
        final(board).move_buffer@ == old(board).move_buffer@,
        final(board).move_buf_len@ == old(board).move_buf_len@,
        final(board).end_of_game == old(board).end_of_game,
        final(board).end_of_search == old(board).end_of_search,
        final(board).game_line@ == old(board).game_line@,
        final(board).tables == old(board).tables,
{
    board.setup_fen(fen_str.to_owned());
}

/// The position in FEN.
pub fn get_fen(board: &mut Board) -> (s: String)
    requires
        old(board).wf(),
    ensures
        s@ == fen_text(*old(board)),
        *final(board) == *old(board),
{
    board.get_fen_position()
}

/// The placement field of the position's FEN.
pub fn get_truncated_fen(board: &mut Board) -> (s: String)
    ensures
        s@ == placement_fen(old(board).square@),
        *final(board) == *old(board),
{
    board.get_fen_truncated()
}

/// Plays a move given in UCI (see `Board::make_uci_move`).
pub fn move_uci(board: &mut Board, uci: &str) -> (r: LegalMove)
    requires
        can_make_two(*old(board)),
    ensures
        ({
            let legal = legal_moves(*old(board));
            let idx = find_uci(legal, uci@, 0);
            if idx < legal.len() {
                &&& r.movim == legal[idx]
                &&& r.uci@ == uci_chars(legal[idx])
                &&& r.san@ == san_disambig_chars(*old(board), legal[idx])
                &&& old(board).move_ok(legal[idx])
                &&& played(*old(board), legal[idx], *final(board))
                &&& final(board).undo_ok(legal[idx])
            } else {
                &&& r.movim.move_int == 0
                &&& r.uci@ == Seq::<char>::empty()
                &&& r.san@ == Seq::<char>::empty()
                &&& final(board).wf()
                &&& final(board).same_state(*old(board))
            }
        }),
{
    board.make_uci_move(uci)
}

/// Plays a move given in SAN (see `Board::make_san_move`).
pub fn move_san(board: &mut Board, san: &str) -> (r: LegalMove)
    requires
        can_make(*old(board)),
        san_readable(legal_moves(*old(board)), san@),
    ensures
        ({
            let legal = legal_moves(*old(board));
            let i = san_pick(legal, old(board).next_move, san@);
            if 0 <= i {
                &&& r.movim == legal[i]
                &&& r.uci@ == uci_chars(legal[i])
                &&& r.san@ == san@
                &&& old(board).move_ok(legal[i])
                &&& played(*old(board), legal[i], *final(board))
                &&& final(board).undo_ok(legal[i])
            } else {
                &&& r.movim.move_int == 0
                &&& r.uci@ == Seq::<char>::empty()
                &&& r.san@ == Seq::<char>::empty()
                &&& final(board).wf()
                &&& final(board).same_state(*old(board))
            }
        }),
{
    board.make_san_move(san)
}

/// Takes back the move made last.
pub fn undo_move(board: &mut Board, mov: LegalMove)
    requires
        old(board).wf(),
        old(board).undo_ok(mov.movim),
    ensures
        unmake_move_post(*old(board), mov.movim, *final(board)),
{
    board.unmake_move(mov.movim);
}

/// Whether the game has ended (see `end_of_game`).
pub fn game_ended(board: &mut Board) -> (r: bool)
    requires
        can_make(*old(board)),
    ensures
        r == end_of_game(*old(board)),
        final(board).wf(),
        final(board).same_state(*old(board)),
{
    board.is_end_of_game()
}

/// The piece codes of the 64 squares, a1 first.
pub fn get_board_array(board: &mut Board) -> (a: [i32; 64])
    ensures
        a@ == old(board).square@,
        *final(board) == *old(board),
{
    board.square
}

/// The letter of the piece on a square: upper case for white, lower case
/// for black, "None" for an empty square.
pub open spec fn piece_text(p: i32) -> Seq<char> {
    if p == 1 { seq!['P'] } else if p == 2 { seq!['K'] } else if p == 3 { seq!['N'] }
    else if p == 5 { seq!['B'] } else if p == 6 { seq!['R'] } else if p == 7 { seq!['Q'] }
    else if p == 9 { seq!['p'] } else if p == 10 { seq!['k'] } else if p == 11 { seq!['n'] }
    else if p == 13 { seq!['b'] } else if p == 14 { seq!['r'] } else if p == 15 { seq!['q'] }
    else { seq!['N', 'o', 'n', 'e'] }
}

/// The first square, from `i` on, named `name`; 64 when none.
pub open spec fn square_named(name: Seq<char>, i: int) -> int
    decreases 64 - i,
{
    if i < 0 || i >= 64 { 64 } else if square_name(i) == name { i } else { square_named(name, i + 1) }
}

fn find_square(name: &Vec<char>) -> (r: usize)
    ensures
        r == square_named(name@, 0),
        r <= 64,
{
    let mut i: usize = 0;
    while i < 64
        invariant
            i <= 64,
            square_named(name@, i as int) == square_named(name@, 0),
        decreases 64 - i,
    {
        let mut n: Vec<char> = Vec::new();
        crate::globs::push_square_name(&mut n, i);
        if n.len() == name.len() && n[0] == name[0] && n[1] == name[1] {
            assert(n@ =~= name@);
            return i;
        }
        assert(n@ != name@) by {
            if n@ == name@ { assert(n@[0] == name@[0] && n@[1] == name@[1]); }
        }
        i = i + 1;
    }
    i
}

/// The piece on the square named `square` ("e4"), as `piece_text` writes it;
/// "None" when no square has that name.
pub fn get_piece_at_alphasquare(board: &mut Board, square: &str) -> (s: String)
    ensures
        s@ == (if square_named(square@, 0) < 64 { piece_text(old(board).square@[square_named(square@, 0)]) } else {
            seq!['N', 'o', 'n', 'e']
        }),
        *final(board) == *old(board),
{
    let name = chars_of(square);
    let i = find_square(&name);
    let mut v: Vec<char> = Vec::new();
    if i == 64 {
        v.push('N'); v.push('o'); v.push('n'); v.push('e');
    } else {
        let p = board.square[i];
        if p == 1 { v.push('P'); } else if p == 2 { v.push('K'); } else if p == 3 { v.push('N'); }
        else if p == 5 { v.push('B'); } else if p == 6 { v.push('R'); } else if p == 7 { v.push('Q'); }
        else if p == 9 { v.push('p'); } else if p == 10 { v.push('k'); } else if p == 11 { v.push('n'); }
        else if p == 13 { v.push('b'); } else if p == 14 { v.push('r'); } else if p == 15 { v.push('q'); }
        else { v.push('N'); v.push('o'); v.push('n'); v.push('e'); }
    }
    assert(v@ =~= (if square_named(name@, 0) < 64 { piece_text(board.square@[square_named(name@, 0)]) } else {
        seq!['N', 'o', 'n', 'e']
    }));
    string_from_chars(&v)
}


/// The two characters that picture a piece code: its letter, and '*' for black.
pub open spec fn piece_cell(p: int) -> Seq<char> {
    let k = p % 8;
    let letter = if k == 1 { 'P' } else if k == 2 { 'K' } else if k == 3 { 'N' } else if k == 5 { 'B' }
        else if k == 6 { 'R' } else if k == 7 { 'Q' } else { ' ' };
    seq![letter, if p > 8 && letter != ' ' { '*' } else { ' ' }]
}

/// The cells of rank `r` from file `f` up to h.
pub open spec fn cells_up(sq: Seq<i32>, r: int, f: int) -> Seq<char>
    decreases 9 - f,
{
    if f < 1 || f > 8 {
        seq![]
    } else {
        seq![' '] + piece_cell(sq[(r - 1) * 8 + f - 1] as int) + seq!['|'] + cells_up(sq, r, f + 1)
    }
}

/// The cells of rank `r` from file `f` down to a.
pub open spec fn cells_down(sq: Seq<i32>, r: int, f: int) -> Seq<char>
    decreases f,
{
    if f < 1 || f > 8 {
        seq![]
    } else {
        seq![' '] + piece_cell(sq[(r - 1) * 8 + f - 1] as int) + seq!['|'] + cells_down(sq, r, f - 1)
    }
}

pub open spec fn board_rule() -> Seq<char> {
    "    +---+---+---+---+---+---+---+---+\n"@
}

/// Ranks `r` down to 1, white's view.
pub open spec fn rows_white(sq: Seq<i32>, r: int) -> Seq<char>
    decreases r,
{
    if r < 1 || r > 8 {
        seq![]
    } else {
        board_rule() + seq![' ', ' ', rank_char(r), ' ', '|'] + cells_up(sq, r, 1) + seq!['\n'] + rows_white(sq, r - 1)
    }
}

/// Ranks `r` up to 8, black's view.
pub open spec fn rows_black(sq: Seq<i32>, r: int) -> Seq<char>
    decreases 9 - r,
{
    if r < 1 || r > 8 {
        seq![]
    } else {
        board_rule() + seq![' ', ' ', ' ', ' ', '|'] + cells_down(sq, r, 8) + seq![' ', ' ', rank_char(r), '\n']
            + rows_black(sq, r + 1)
    }
}

/// The picture of the board, from white's side or, when rotated, black's.
pub open spec fn board_picture(b: Board) -> Seq<char> {
    if !b.view_rotated {
        rows_white(b.square@, 8) + board_rule() + "      a   b   c   d   e   f   g   h\n"@
    } else {
        "      h   g   f   e   d   c   b   a\n"@ + rows_black(b.square@, 1) + board_rule()
    }
}

fn push_cell(v: &mut Vec<char>, p: i32)
    requires
        0 <= p < 16,
    ensures
        final(v)@ == old(v)@ + piece_cell(p as int),
{
    let k = p % 8;
    let letter = if k == 1 { 'P' } else if k == 2 { 'K' } else if k == 3 { 'N' } else if k == 5 { 'B' }
        else if k == 6 { 'R' } else if k == 7 { 'Q' } else { ' ' };
    v.push(letter);
    v.push(if p > 8 && letter != ' ' { '*' } else { ' ' });
    assert(final(v)@ =~= old(v)@ + piece_cell(p as int));
}

fn push_rank_cells(v: &mut Vec<char>, sq: &[i32; 64], r: usize, up: bool)
    requires
        1 <= r <= 8,
        forall|i: int| 0 <= i < 64 ==> crate::globs::valid_code(#[trigger] sq@[i] as int),
    ensures
        final(v)@ == old(v)@ + (if up { cells_up(sq@, r as int, 1) } else { cells_down(sq@, r as int, 8) }),
{
    let ghost base = v@;
    let mut k: usize = 0;
    while k < 8
        invariant
            1 <= r <= 8,
            k <= 8,
            forall|i: int| 0 <= i < 64 ==> crate::globs::valid_code(#[trigger] sq@[i] as int),
            up ==> base + cells_up(sq@, r as int, 1) == v@ + cells_up(sq@, r as int, k as int + 1),
            !up ==> base + cells_down(sq@, r as int, 8) == v@ + cells_down(sq@, r as int, 8 - k as int),
        decreases 8 - k,
    {
        let f = if up { k + 1 } else { 8 - k };
        let p = sq[(r - 1) * 8 + f - 1];
        assert(crate::globs::valid_code(sq@[(r - 1) * 8 + f - 1] as int));
        let ghost before = v@;
        v.push(' ');
        push_cell(v, p);
        v.push('|');
        proof {
            if up {
                assert(before + cells_up(sq@, r as int, f as int) =~= v@ + cells_up(sq@, r as int, f as int + 1));
            } else {
                assert(before + cells_down(sq@, r as int, f as int) =~= v@ + cells_down(sq@, r as int, f as int - 1));
            }
        }
        k = k + 1;
    }
    proof {
        assert(cells_up(sq@, r as int, 9) =~= seq![]);
        assert(cells_down(sq@, r as int, 0) =~= seq![]);
    }
}

impl Board {
    /// The picture of the board that `draw_board` shows.
    pub fn display_text(&self) -> (s: String)
        requires
            self.wf(),
        ensures
            s@ == board_picture(*self),
    {
        let rule = chars_of("    +---+---+---+---+---+---+---+---+\n");
        let mut v: Vec<char> = Vec::new();
        let ghost sq = self.square@;
        if !self.view_rotated {
            let mut r: usize = 8;
            while r >= 1
                invariant
                    r <= 8,
                    rule@ == board_rule(),
                    sq == self.square@,
                    self.wf(),
                    rows_white(sq, 8) == v@ + rows_white(sq, r as int),
                decreases r,
            {
                let ghost before = v@;
                push_all(&mut v, &rule);
                v.push(' '); v.push(' ');
                v.push(crate::globs::rank_to_char(r as i32));
                v.push(' '); v.push('|');
                push_rank_cells(&mut v, &self.square, r, true);
                v.push('\n');
                assert(before + rows_white(sq, r as int) =~= v@ + rows_white(sq, r as int - 1));
                r = r - 1;
            }
            push_all(&mut v, &rule);
            let files = chars_of("      a   b   c   d   e   f   g   h\n");
            push_all(&mut v, &files);
            assert(v@ =~= board_picture(*self));
        } else {
            let files = chars_of("      h   g   f   e   d   c   b   a\n");
            push_all(&mut v, &files);
            let ghost head = v@;
            let mut r: usize = 1;
            while r <= 8
                invariant
                    1 <= r <= 9,
                    rule@ == board_rule(),
                    sq == self.square@,
                    self.wf(),
                    head + rows_black(sq, 1) == v@ + rows_black(sq, r as int),
                decreases 9 - r,
            {
                let ghost before = v@;
                push_all(&mut v, &rule);
                v.push(' '); v.push(' '); v.push(' '); v.push(' '); v.push('|');
                push_rank_cells(&mut v, &self.square, r, false);
                v.push(' '); v.push(' ');
                v.push(crate::globs::rank_to_char(r as i32));
                v.push('\n');
                assert(before + rows_black(sq, r as int) =~= v@ + rows_black(sq, r as int + 1));
                r = r + 1;
            }
            push_all(&mut v, &rule);
            assert(v@ =~= board_picture(*self));
        }
        string_from_chars(&v)
    }
}

/// The picture of the board, for the caller to print.
pub fn draw_board(board: &mut Board) -> (s: String)
    requires
        old(board).wf(),
    ensures
        s@ == board_picture(*old(board)),
        *final(board) == *old(board),
{
    board.display_text()
}

/// The name of a piece code as a one-letter text: upper case for white,
/// lower case for black, "*" for no piece.
fn real_piece_str(p: i32) -> (s: &'static str)
    ensures
        s@ == seq![real_piece_char(p as int)],
{
    proof {
        reveal_strlit("P"); reveal_strlit("K"); reveal_strlit("N"); reveal_strlit("B");
        reveal_strlit("R"); reveal_strlit("Q"); reveal_strlit("p"); reveal_strlit("k");
        reveal_strlit("n"); reveal_strlit("b"); reveal_strlit("r"); reveal_strlit("q");
        reveal_strlit("*");
    }
    if p == 1 { "P" } else if p == 2 { "K" } else if p == 3 { "N" } else if p == 5 { "B" }
    else if p == 6 { "R" } else if p == 7 { "Q" } else if p == 9 { "p" } else if p == 10 { "k" }
    else if p == 11 { "n" } else if p == 13 { "b" } else if p == 14 { "r" } else if p == 15 { "q" }
    else { "*" }
}

/// The square shown at place `i` of a picture read rank 8 to rank 1, each
/// rank from file a to file h.
pub open spec fn picture_square(i: int) -> int {
    (7 - i / 8) * 8 + i % 8
}

/// The pieces of the board as one-letter names, rank 8 first, each rank
/// from file a to file h.
pub fn graphical_board(board: &mut Board) -> (v: Vec<&'static str>)
    ensures
        v.len() == 64,
        forall|i: int| 0 <= i < 64 ==> (#[trigger] v[i])@ == seq![real_piece_char(
            old(board).square[picture_square(i)] as int)],
        *final(board) == *old(board),
{
    let mut v: Vec<&'static str> = Vec::new();
    let mut rank: usize = 8;
    while rank > 0
        invariant
            0 <= rank <= 8,
            v.len() == (8 - rank) * 8,
            forall|i: int| 0 <= i < v.len() ==> (#[trigger] v[i])@ == seq![real_piece_char(
                board.square[picture_square(i)] as int)],
        decreases rank,
    {
        let mut file: usize = 0;
        while file < 8
            invariant
                1 <= rank <= 8,
                file <= 8,
                v.len() == (8 - rank) * 8 + file,
                forall|i: int| 0 <= i < v.len() ==> (#[trigger] v[i])@ == seq![real_piece_char(
                    board.square[picture_square(i)] as int)],
            decreases 8 - file,
        {
            let sq = (rank - 1) * 8 + file;
            let p = board.square[sq];
            let ghost n = v.len() as int;
            assert(picture_square(n) == sq) by {
                assert(n / 8 == 8 - rank && n % 8 == file) by (nonlinear_arith)
                    requires n == (8 - rank) * 8 + file, file < 8;
            }
            v.push(real_piece_str(p));
            file = file + 1;
        }
        rank = rank - 1;
    }
    v
}

}
