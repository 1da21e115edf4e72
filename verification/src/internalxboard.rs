use vstd::prelude::*;
use crate::strutil::{chars_of, string_from_chars};

verus! {

// Coordinates of the graphical board: (row, column), both 0..7, with
// notation such as "e4".

/// The column letters of the board.
pub open spec fn y_eje(c: int) -> char {
    if c == 0 { 'a' } else if c == 1 { 'b' } else if c == 2 { 'c' } else if c == 3 { 'd' }
    else if c == 4 { 'e' } else if c == 5 { 'f' } else if c == 6 { 'g' } else { 'h' }
}

/// The row digits of the board.
pub open spec fn x_eje(r: int) -> char {
    if r == 0 { '1' } else if r == 1 { '2' } else if r == 2 { '3' } else if r == 3 { '4' }
    else if r == 4 { '5' } else if r == 5 { '6' } else if r == 6 { '7' } else { '8' }
}

/// The coordinate is on the board.
pub fn esta_en_tablero(coord: (usize, usize)) -> (r: bool)
    ensures
        r == (coord.0 <= 7 && coord.1 <= 7),
{
    !(coord.1 > 7 || coord.0 > 7)
}

/// The notation of a coordinate (row, column): column letter and row
/// number; "None" off the board.
pub fn alfa_notacion(xycoord: (usize, usize)) -> (s: String)
    ensures
        s@ == (if xycoord.0 <= 7 && xycoord.1 <= 7 {
            seq![y_eje(xycoord.1 as int), x_eje(xycoord.0 as int)]
        } else {
            seq!['N', 'o', 'n', 'e']
        }),
{
    let mut v: Vec<char> = Vec::new();
    if !esta_en_tablero(xycoord) {
        v.push('N'); v.push('o'); v.push('n'); v.push('e');
    } else {
        let c = xycoord.1;
        let r = xycoord.0;
        v.push(if c == 0 { 'a' } else if c == 1 { 'b' } else if c == 2 { 'c' } else if c == 3 { 'd' }
            else if c == 4 { 'e' } else if c == 5 { 'f' } else if c == 6 { 'g' } else { 'h' });
        v.push(if r == 0 { '1' } else if r == 1 { '2' } else if r == 2 { '3' } else if r == 3 { '4' }
            else if r == 4 { '5' } else if r == 5 { '6' } else if r == 6 { '7' } else { '8' });
    }
    assert(v@ =~= (if xycoord.0 <= 7 && xycoord.1 <= 7 {
        seq![y_eje(xycoord.1 as int), x_eje(xycoord.0 as int)]
    } else {
        seq!['N', 'o', 'n', 'e']
    }));
    string_from_chars(&v)
}

/// The notation can be read: a column letter a..h, then a digit 1..9.
pub open spec fn notation_ok(s: Seq<char>) -> bool {
    s.len() >= 2 && 'a' <= s[0] <= 'h' && '1' <= s[1] <= '9'
}

/// The coordinate (row, column) of a notation such as "e4".
pub fn num_notacion(xycoord: &str) -> (r: (usize, usize))
    requires
        notation_ok(xycoord@),
    ensures
        r.0 == xycoord@[1] as int - '1' as int,
        r.1 == xycoord@[0] as int - 'a' as int,
{
    let v = chars_of(xycoord);
    let car = v[0];
    let num_car = v[1];
    let col = (car as u32 - 'a' as u32) as usize;
    let fila = (num_car as u32 - '1' as u32) as usize;
    (fila, col)
}


/// The notation of the coordinate read from a square's notation is that
/// notation: "e4" gives (3, 4), which gives "e4".
pub proof fn law_notation_round_trip(s: Seq<char>)
    requires
        s.len() == 2,
        'a' <= s[0] <= 'h',
        '1' <= s[1] <= '8',
    ensures
        ({
            let r = s[1] as int - '1' as int;
            let c = s[0] as int - 'a' as int;
            &&& 0 <= r <= 7 && 0 <= c <= 7
            &&& seq![y_eje(c), x_eje(r)] == s
        }),
{
    let r = s[1] as int - '1' as int;
    let c = s[0] as int - 'a' as int;
    assert(y_eje(c) == s[0]);
    assert(x_eje(r) == s[1]);
    assert(seq![y_eje(c), x_eje(r)] =~= s);
}

/// The notation of the square shown at place `i` of a picture read rank 8
/// to rank 1, each rank from column a to column h.
pub open spec fn place_notation(i: int) -> Seq<char> {
    seq![y_eje(i % 8), x_eje(7 - i / 8)]
}

/// The pieces of the first `n` places of a picture, each with the notation
/// of its square, in the order of the places; "*" marks an empty square.
pub open spec fn placed_pieces(s: Seq<Seq<char>>, n: int) -> Seq<(Seq<char>, Seq<char>)>
    decreases n,
{
    if n <= 0 {
        seq![]
    } else if s[n - 1] == seq!['*'] {
        placed_pieces(s, n - 1)
    } else {
        placed_pieces(s, n - 1).push((place_notation(n - 1), s[n - 1]))
    }
}

/// The picture as it is read: the names in order, or all reversed when the
/// board is flipped.
pub open spec fn picture_read(arr: Seq<&str>, flipped: bool) -> Seq<Seq<char>> {
    let names = arr.map_values(|x: &str| x@);
    if flipped { names.reverse() } else { names }
}

/// The board of a picture of 64 piece names (rank 8 first, as
/// `graphical_board` gives it): each occupied square's notation with its
/// piece, rank 8 first; a flipped picture is read backwards.
pub fn procesa_notacion(arr_piezas: Vec<&str>, flipped: bool) -> (tablero: Vec<(String, String)>)
    requires
        arr_piezas.len() >= 64,
    ensures
        tablero.len() == placed_pieces(picture_read(arr_piezas@, flipped), 64).len(),
        forall|i: int| 0 <= i < tablero.len() ==> ((#[trigger] tablero[i]).0@, tablero[i].1@)
            == placed_pieces(picture_read(arr_piezas@, flipped), 64)[i],
{
    let ghost names = picture_read(arr_piezas@, flipped);
    let n = arr_piezas.len();
    let mut tablero: Vec<(String, String)> = Vec::new();
    let mut i: usize = 0;
    while i < 64
        invariant
            n == arr_piezas.len(),
            n >= 64,
            i <= 64,
            names == picture_read(arr_piezas@, flipped),
            tablero.len() == placed_pieces(names, i as int).len(),
            forall|j: int| 0 <= j < tablero.len() ==> ((#[trigger] tablero[j]).0@, tablero[j].1@)
                == placed_pieces(names, i as int)[j],
        decreases 64 - i,
    {
        let name: &str = if flipped { arr_piezas[n - 1 - i] } else { arr_piezas[i] };
        assert(name@ == names[i as int]);
        let cs = chars_of(name);
        let empty = cs.len() == 1 && cs[0] == '*';
        assert(empty == (names[i as int] == seq!['*'])) by {
            if names[i as int] == seq!['*'] { assert(cs@.len() == 1 && cs@[0] == '*'); }
            if empty { assert(cs@ =~= seq!['*']); }
        }
        if !empty {
            let sq = alfa_notacion((7 - i / 8, i % 8));
            assert(sq@ == place_notation(i as int));
            tablero.push((sq, name.to_owned()));
        }
        i = i + 1;
    }
    tablero
}

}
