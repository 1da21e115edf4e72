use vstd::prelude::*;
use crate::strutil::{chars_of, string_from_chars, push_int, int_chars, push_all, push_decimal, decimal};
use crate::pgntext::{pieces, split_chars};
use crate::fen::{fen_ok, fen_valid, words, placement_squares};
use crate::wchess::{new_board, set_fen as board_set_fen, get_board_array, picture_square};

verus! {

// The board of the position editor: 64 squares, a8 first and rank by rank
// down to h1, each with its colour ("w" or "b") and the image on it ("sq"
// for an empty square, else the colour and letter of a piece, as "wk").

/// A square of the position editor: its colour and the image on it.
pub struct Squares {
    pub sqcolor: String,
    pub img_name: String,
}

impl Squares {
    pub fn new(sqcolor: String, img_name: String) -> (r: Self)
        ensures
            r.sqcolor == sqcolor,
            r.img_name == img_name,
    {
        Squares { sqcolor, img_name }
    }
}

/// What a search for a position looks for.
#[derive(PartialEq, Eq, Structural, Debug, Clone, Copy)]
pub enum PositionType {
    /// The placement of the pieces.
    PiecesFen,
    /// The whole FEN.
    StandardFen,
    /// The material of each side.
    PiecesMaterial,
}

/// A position to search for: its kind and its text.
pub struct DataPosition {
    pub pos_type: PositionType,
    pub search_str: String,
}

impl DataPosition {
    pub fn data_exact_fen(fenstr: String) -> (r: Self)
        ensures
            r.pos_type == PositionType::StandardFen,
            r.search_str == fenstr,
    {
        DataPosition { pos_type: PositionType::StandardFen, search_str: fenstr }
    }

    pub fn data_material(materialstr: String) -> (r: Self)
        ensures
            r.pos_type == PositionType::PiecesMaterial,
            r.search_str == materialstr,
    {
        DataPosition { pos_type: PositionType::PiecesMaterial, search_str: materialstr }
    }

    pub fn data_position_fen(fenstr: String) -> (r: Self)
        ensures
            r.pos_type == PositionType::PiecesFen,
            r.search_str == fenstr,
    {
        DataPosition { pos_type: PositionType::PiecesFen, search_str: fenstr }
    }
}

/// The colour of the square at place `i`: the first place is light, and
/// colours alternate along a rank and from rank to rank.
pub open spec fn square_color(i: int) -> Seq<char> {
    if (i / 8 + i % 8) % 2 == 0 { seq!['w'] } else { seq!['b'] }
}

/// The empty board: 64 squares of alternating colours, none with a piece.
pub fn create_board() -> (v: Vec<Squares>)
    ensures
        v.len() == 64,
        forall|i: int| 0 <= i < 64 ==> (#[trigger] v[i]).sqcolor@ == square_color(i) && v[i].img_name@ == seq![
            's',
            'q',
        ],
{
    let mut v: Vec<Squares> = Vec::new();
    let mut i: usize = 0;
    while i < 64
        invariant
            i <= 64,
            v.len() == i,
            forall|j: int| 0 <= j < i ==> (#[trigger] v[j]).sqcolor@ == square_color(j) && v[j].img_name@ == seq![
                's',
                'q',
            ],
        decreases 64 - i,
    {
        let white = (i / 8 + i % 8) % 2 == 0;
        let mut c: Vec<char> = Vec::new();
        c.push(if white { 'w' } else { 'b' });
        let mut n: Vec<char> = Vec::new();
        n.push('s');
        n.push('q');
        assert(c@ =~= square_color(i as int));
        assert(n@ =~= seq!['s', 'q']);
        v.push(Squares::new(string_from_chars(&c), string_from_chars(&n)));
        i = i + 1;
    }
    v
}

/// The image names of the piece box: for white then for black, an empty
/// square, king, queen, rook, bishop, knight, pawn and an empty square.
pub open spec fn piece_box(i: int) -> Seq<char> {
    let c = if i < 8 { 'w' } else { 'b' };
    let k = i % 8;
    if k == 0 || k == 7 { seq!['s', 'q'] }
    else if k == 1 { seq![c, 'k'] } else if k == 2 { seq![c, 'q'] } else if k == 3 { seq![c, 'r'] }
    else if k == 4 { seq![c, 'b'] } else if k == 5 { seq![c, 'n'] } else { seq![c, 'p'] }
}

/// The piece box of the position editor: 16 squares, the white pieces on
/// light squares, then the black ones on dark squares (see `piece_box`).
pub fn create_pieces() -> (v: Vec<Squares>)
    ensures
        v.len() == 16,
        forall|i: int| 0 <= i < 16 ==> (#[trigger] v[i]).sqcolor@ == (if i < 8 { seq!['w'] } else { seq!['b'] })
            && v[i].img_name@ == piece_box(i),
{
    let mut v: Vec<Squares> = Vec::new();
    let mut i: usize = 0;
    while i < 16
        invariant
            i <= 16,
            v.len() == i,
            forall|j: int| 0 <= j < i ==> (#[trigger] v[j]).sqcolor@ == (if j < 8 { seq!['w'] } else { seq!['b'] })
                && v[j].img_name@ == piece_box(j),
        decreases 16 - i,
    {
        let c = if i < 8 { 'w' } else { 'b' };
        let k = i % 8;
        let mut col: Vec<char> = Vec::new();
        col.push(c);
        let mut n: Vec<char> = Vec::new();
        if k == 0 || k == 7 {
            n.push('s');
            n.push('q');
        } else {
            n.push(c);
            n.push(if k == 1 { 'k' } else if k == 2 { 'q' } else if k == 3 { 'r' } else if k == 4 { 'b' }
                else if k == 5 { 'n' } else { 'p' });
        }
        assert(n@ =~= piece_box(i as int));
        assert(col@ =~= (if i < 8 { seq!['w'] } else { seq!['b'] }));
        v.push(Squares::new(string_from_chars(&col), string_from_chars(&n)));
        i = i + 1;
    }
    v
}

/// The FEN letter of a piece image; nothing for an image of no piece.
pub open spec fn image_letter(img: Seq<char>) -> Seq<char> {
    if img == seq!['w', 'p'] { seq!['P'] } else if img == seq!['w', 'k'] { seq!['K'] }
    else if img == seq!['w', 'n'] { seq!['N'] } else if img == seq!['w', 'b'] { seq!['B'] }
    else if img == seq!['w', 'r'] { seq!['R'] } else if img == seq!['w', 'q'] { seq!['Q'] }
    else if img == seq!['b', 'p'] { seq!['p'] } else if img == seq!['b', 'k'] { seq!['k'] }
    else if img == seq!['b', 'n'] { seq!['n'] } else if img == seq!['b', 'b'] { seq!['b'] }
    else if img == seq!['b', 'r'] { seq!['r'] } else if img == seq!['b', 'q'] { seq!['q'] }
    else { seq![] }
}

/// The text with a count of empty squares written after it, when there are any.
pub open spec fn with_empties(t: Seq<char>, e: int) -> Seq<char> {
    if e != 0 { t + int_chars(e) } else { t }
}

/// The FEN text of the squares `imgs[from..i]` so far and the count of
/// empty squares not yet written.
pub open spec fn fen_run(imgs: Seq<Seq<char>>, from: int, i: int) -> (Seq<char>, int)
    decreases i - from,
{
    if i <= from {
        (seq![], 0)
    } else {
        let (t, e) = fen_run(imgs, from, i - 1);
        if imgs[i - 1] == seq!['s', 'q'] {
            (t, e + 1)
        } else {
            (with_empties(t, e) + image_letter(imgs[i - 1]), 0)
        }
    }
}

/// The images of the squares.
pub open spec fn images(v: Seq<Squares>) -> Seq<Seq<char>> {
    v.map_values(|q: Squares| q.img_name@)
}

/// The FEN placement of the squares `from..to` of the editor board: a run
/// of empty squares as its count, a piece as its letter; "/" after it but
/// after the last rank.
pub fn create_exact_fen(vec_sq: &Vec<Squares>, from: usize, to: usize) -> (fen: String)
    requires
        from <= to <= vec_sq.len(),
        to - from < i32::MAX,
    ensures
        fen@ == with_empties(fen_run(images(vec_sq@), from as int, to as int).0, fen_run(images(vec_sq@),
            from as int, to as int).1) + (if to != 64 { seq!['/'] } else { seq![] }),
{
    let ghost imgs = images(vec_sq@);
    let mut fen: Vec<char> = Vec::new();
    let mut empties: i32 = 0;
    let mut i = from;
    while i < to
        invariant
            from <= i <= to,
            to <= vec_sq.len(),
            to - from < i32::MAX,
            imgs == images(vec_sq@),
            (fen@, empties as int) == fen_run(imgs, from as int, i as int),
            0 <= empties <= i - from,
        decreases to - i,
    {
        let img = chars_of(vec_sq[i].img_name.as_str());
        assert(img@ == imgs[i as int]);
        let empty = img.len() == 2 && img[0] == 's' && img[1] == 'q';
        assert(empty == (img@ == seq!['s', 'q'])) by {
            if empty { assert(img@ =~= seq!['s', 'q']); }
        }
        if empty {
            empties = empties + 1;
        } else {
            if empties != 0 {
                push_int(&mut fen, empties);
                empties = 0;
            }
            let two = img.len() == 2;
            let c0 = if two { img[0] } else { ' ' };
            let c1 = if two { img[1] } else { ' ' };
            let letter: Option<char> = if !two { None }
                else if c0 == 'w' && c1 == 'p' { Some('P') } else if c0 == 'w' && c1 == 'k' { Some('K') }
                else if c0 == 'w' && c1 == 'n' { Some('N') } else if c0 == 'w' && c1 == 'b' { Some('B') }
                else if c0 == 'w' && c1 == 'r' { Some('R') } else if c0 == 'w' && c1 == 'q' { Some('Q') }
                else if c0 == 'b' && c1 == 'p' { Some('p') } else if c0 == 'b' && c1 == 'k' { Some('k') }
                else if c0 == 'b' && c1 == 'n' { Some('n') } else if c0 == 'b' && c1 == 'b' { Some('b') }
                else if c0 == 'b' && c1 == 'r' { Some('r') } else if c0 == 'b' && c1 == 'q' { Some('q') }
                else { None };
            let ghost before = fen@;
            match letter {
                Some(l) => { fen.push(l); },
                None => {},
            }
            assert(fen@ =~= before + image_letter(img@)) by {
                if two { assert(img@ =~= seq![c0, c1]); }
            }
        }
        i = i + 1;
    }
    if empties != 0 {
        push_int(&mut fen, empties);
    }
    if to != 64 {
        fen.push('/');
    }
    proof {
        let r = fen_run(imgs, from as int, to as int);
        assert(fen@ =~= with_empties(r.0, r.1) + (if to != 64 { seq!['/'] } else { seq![] }));
    }
    string_from_chars(&fen)
}

/// What a square stands for in a search by piece placement: "?" for an
/// empty square (any content matches), a piece as its letter.
pub open spec fn pattern_char(img: Seq<char>) -> Seq<char> {
    if img == seq!['s', 'q'] { seq!['?'] } else { image_letter(img) }
}

/// The search pattern of the first `n` squares: their characters (see
/// `pattern_char`), with "/" before the first square of each rank once some
/// text is written.
pub open spec fn pattern_text(imgs: Seq<Seq<char>>, n: int) -> Seq<char>
    decreases n,
{
    if n <= 0 {
        seq![]
    } else {
        let t = pattern_text(imgs, n - 1);
        let t1 = if (n - 1) % 8 == 0 && t.len() > 0 { t + seq!['/'] } else { t };
        t1 + pattern_char(imgs[n - 1])
    }
}

fn image_is(img: &Vec<char>, c0: char, c1: char) -> (r: bool)
    ensures
        r == (img@ == seq![c0, c1]),
{
    let r = img.len() == 2 && img[0] == c0 && img[1] == c1;
    proof {
        if r { assert(img@ =~= seq![c0, c1]); }
    }
    r
}

/// The letter of a piece image, if it is one.
fn image_letter_exec(img: &Vec<char>) -> (v: Vec<char>)
    ensures
        v@ == image_letter(img@),
{
    let mut v: Vec<char> = Vec::new();
    if image_is(img, 'w', 'p') { v.push('P'); } else if image_is(img, 'w', 'k') { v.push('K'); }
    else if image_is(img, 'w', 'n') { v.push('N'); } else if image_is(img, 'w', 'b') { v.push('B'); }
    else if image_is(img, 'w', 'r') { v.push('R'); } else if image_is(img, 'w', 'q') { v.push('Q'); }
    else if image_is(img, 'b', 'p') { v.push('p'); } else if image_is(img, 'b', 'k') { v.push('k'); }
    else if image_is(img, 'b', 'n') { v.push('n'); } else if image_is(img, 'b', 'b') { v.push('b'); }
    else if image_is(img, 'b', 'r') { v.push('r'); } else if image_is(img, 'b', 'q') { v.push('q'); }
    assert(v@ =~= image_letter(img@));
    v
}

/// The pattern of the editor board for a search by piece placement: each
/// square as its piece letter or "?" when empty, rank after rank with "/"
/// between them.
pub fn position_pattern(vec_sq: &Vec<Squares>) -> (fen: String)
    ensures
        fen@ == pattern_text(images(vec_sq@), vec_sq.len() as int),
{
    let ghost imgs = images(vec_sq@);
    let mut fen: Vec<char> = Vec::new();
    let mut i: usize = 0;
    while i < vec_sq.len()
        invariant
            i <= vec_sq.len(),
            imgs == images(vec_sq@),
            fen@ == pattern_text(imgs, i as int),
        decreases vec_sq.len() - i,
    {
        if i % 8 == 0 && fen.len() > 0 {
            fen.push('/');
        }
        let img = chars_of(vec_sq[i].img_name.as_str());
        assert(img@ == imgs[i as int]);
        if image_is(&img, 's', 'q') {
            fen.push('?');
        } else {
            let l = image_letter_exec(&img);
            push_all(&mut fen, &l);
        }
        i = i + 1;
        assert(fen@ =~= pattern_text(imgs, i as int));
    }
    string_from_chars(&fen)
}

/// The FEN placement of the ranks `0..k` of the editor board (see
/// `create_exact_fen`).
pub open spec fn exact_text(imgs: Seq<Seq<char>>, k: int) -> Seq<char>
    decreases k,
{
    if k <= 0 {
        seq![]
    } else {
        let r = fen_run(imgs, 8 * (k - 1), 8 * k);
        exact_text(imgs, k - 1) + with_empties(r.0, r.1) + (if 8 * k != 64 { seq!['/'] } else { seq![] })
    }
}

fn contains_exec(v: &Vec<char>, c: char) -> (r: bool)
    ensures
        r == v@.contains(c),
{
    let mut i: usize = 0;
    while i < v.len()
        invariant
            i <= v.len(),
            forall|j: int| 0 <= j < i ==> v@[j] != c,
        decreases v.len() - i,
    {
        if v[i] == c {
            assert(v@[i as int] == c);
            return true;
        }
        i = i + 1;
    }
    false
}

/// The FEN placement of the editor board for a search by the exact
/// position, or None when a king of either side is missing.
pub fn exact_fen(vec_sq: &Vec<Squares>) -> (r: Option<String>)
    requires
        vec_sq.len() == 64,
    ensures
        ({
            let t = exact_text(images(vec_sq@), 8);
            match r {
                Some(f) => f@ == t && t.contains('K') && t.contains('k'),
                None => !(t.contains('K') && t.contains('k')),
            }
        }),
{
    let ghost imgs = images(vec_sq@);
    let mut fen: Vec<char> = Vec::new();
    let mut k: usize = 0;
    while k < 8
        invariant
            k <= 8,
            vec_sq.len() == 64,
            imgs == images(vec_sq@),
            fen@ == exact_text(imgs, k as int),
        decreases 8 - k,
    {
        let part = create_exact_fen(vec_sq, 8 * k, 8 * k + 8);
        let pc = chars_of(part.as_str());
        push_all(&mut fen, &pc);
        k = k + 1;
    }
    if !contains_exec(&fen, 'K') || !contains_exec(&fen, 'k') {
        return None;
    }
    Some(string_from_chars(&fen))
}

/// How many of the first `n` squares show the image `img`.
pub open spec fn count_image(imgs: Seq<Seq<char>>, img: Seq<char>, n: int) -> nat
    decreases n,
{
    if n <= 0 {
        0
    } else {
        count_image(imgs, img, n - 1) + (if imgs[n - 1] == img { 1nat } else { 0nat })
    }
}

fn count_image_exec(vec_sq: &Vec<Squares>, c0: char, c1: char) -> (r: usize)
    ensures
        r == count_image(images(vec_sq@), seq![c0, c1], vec_sq.len() as int),
{
    let ghost imgs = images(vec_sq@);
    let mut cnt: usize = 0;
    let mut i: usize = 0;
    while i < vec_sq.len()
        invariant
            i <= vec_sq.len(),
            imgs == images(vec_sq@),
            cnt == count_image(imgs, seq![c0, c1], i as int),
            cnt <= i,
        decreases vec_sq.len() - i,
    {
        let img = chars_of(vec_sq[i].img_name.as_str());
        assert(img@ == imgs[i as int]);
        if image_is(&img, c0, c1) {
            cnt = cnt + 1;
        }
        i = i + 1;
    }
    cnt
}

/// A piece letter and a count.
pub open spec fn tally(c: char, n: nat) -> Seq<char> {
    seq![c] + decimal(n)
}

/// The material text of a search by material: one king for each side,
/// then the count of each other piece, white before black, pawns, knights,
/// bishops, rooks and queens, joined by "+" ("K1+k1+P8+p8+N2+...").
pub open spec fn material_text(imgs: Seq<Seq<char>>, n: int) -> Seq<char> {
    tally('K', 1) + seq!['+'] + tally('k', 1)
        + seq!['+'] + tally('P', count_image(imgs, seq!['w', 'p'], n))
        + seq!['+'] + tally('p', count_image(imgs, seq!['b', 'p'], n))
        + seq!['+'] + tally('N', count_image(imgs, seq!['w', 'n'], n))
        + seq!['+'] + tally('n', count_image(imgs, seq!['b', 'n'], n))
        + seq!['+'] + tally('B', count_image(imgs, seq!['w', 'b'], n))
        + seq!['+'] + tally('b', count_image(imgs, seq!['b', 'b'], n))
        + seq!['+'] + tally('R', count_image(imgs, seq!['w', 'r'], n))
        + seq!['+'] + tally('r', count_image(imgs, seq!['b', 'r'], n))
        + seq!['+'] + tally('Q', count_image(imgs, seq!['w', 'q'], n))
        + seq!['+'] + tally('q', count_image(imgs, seq!['b', 'q'], n))
}

/// How many of the first `n` squares show a piece whose FEN letter is `l`.
pub open spec fn count_letter(imgs: Seq<Seq<char>>, l: char, n: int) -> nat
    decreases n,
{
    if n <= 0 {
        0
    } else {
        count_letter(imgs, l, n - 1) + (if image_letter(imgs[n - 1]) == seq![l] { 1nat } else { 0nat })
    }
}

proof fn lemma_count_by_letter(imgs: Seq<Seq<char>>, img: Seq<char>, l: char, n: int)
    requires
        forall|x: Seq<char>| #[trigger] image_letter(x) == seq![l] <==> x == img,
    ensures
        count_image(imgs, img, n) == count_letter(imgs, l, n),
    decreases n,
{
    if n > 0 {
        lemma_count_by_letter(imgs, img, l, n - 1);
        assert(image_letter(imgs[n - 1]) == seq![l] <==> imgs[n - 1] == img);
    }
}

/// Each piece image has the letter of its colour and piece, and no other
/// image has it.
proof fn lemma_letter_of_image(x: Seq<char>, l: char, c0: char, c1: char)
    requires
        image_letter(seq![c0, c1]) == seq![l],
    ensures
        image_letter(x) == seq![l] <==> x == seq![c0, c1],
{
    if image_letter(x) == seq![l] && x != seq![c0, c1] {
        assert(image_letter(x)[0] == l);
        assert(image_letter(seq![c0, c1])[0] == l);
        assert(false);
    }
}

/// Counting the squares of an image is counting those of its letter.
proof fn lemma_count_of_letter(imgs: Seq<Seq<char>>, l: char, c0: char, c1: char, n: int)
    requires
        image_letter(seq![c0, c1]) == seq![l],
    ensures
        count_image(imgs, seq![c0, c1], n) == count_letter(imgs, l, n),
{
    assert forall|x: Seq<char>| #[trigger] image_letter(x) == seq![l] <==> x == seq![c0, c1] by {
        lemma_letter_of_image(x, l, c0, c1);
    }
    lemma_count_by_letter(imgs, seq![c0, c1], l, n);
}

/// The material text counts each kind of piece by its FEN letter: after
/// "K1+k1", for the letters P, p, N, n, B, b, R, r, Q, q in turn, "+", the
/// letter, and the number of squares showing a piece of that letter.
pub proof fn law_material_counts_by_letter(imgs: Seq<Seq<char>>, n: int)
    ensures
        material_text(imgs, n) == tally('K', 1) + seq!['+'] + tally('k', 1)
            + seq!['+'] + tally('P', count_letter(imgs, 'P', n))
            + seq!['+'] + tally('p', count_letter(imgs, 'p', n))
            + seq!['+'] + tally('N', count_letter(imgs, 'N', n))
            + seq!['+'] + tally('n', count_letter(imgs, 'n', n))
            + seq!['+'] + tally('B', count_letter(imgs, 'B', n))
            + seq!['+'] + tally('b', count_letter(imgs, 'b', n))
            + seq!['+'] + tally('R', count_letter(imgs, 'R', n))
            + seq!['+'] + tally('r', count_letter(imgs, 'r', n))
            + seq!['+'] + tally('Q', count_letter(imgs, 'Q', n))
            + seq!['+'] + tally('q', count_letter(imgs, 'q', n)),
{
    lemma_count_of_letter(imgs, 'P', 'w', 'p', n);
    lemma_count_of_letter(imgs, 'p', 'b', 'p', n);
    lemma_count_of_letter(imgs, 'N', 'w', 'n', n);
    lemma_count_of_letter(imgs, 'n', 'b', 'n', n);
    lemma_count_of_letter(imgs, 'B', 'w', 'b', n);
    lemma_count_of_letter(imgs, 'b', 'b', 'b', n);
    lemma_count_of_letter(imgs, 'R', 'w', 'r', n);
    lemma_count_of_letter(imgs, 'r', 'b', 'r', n);
    lemma_count_of_letter(imgs, 'Q', 'w', 'q', n);
    lemma_count_of_letter(imgs, 'q', 'b', 'q', n);
}

fn push_tally(v: &mut Vec<char>, plus: bool, c: char, n: usize)
    ensures
        final(v)@ == old(v)@ + (if plus { seq!['+'] } else { seq![] }) + tally(c, n as nat),
{
    let ghost v0 = v@;
    if plus {
        v.push('+');
    }
    v.push(c);
    push_decimal(v, n as u64);
    assert(v@ =~= v0 + (if plus { seq!['+'] } else { seq![] }) + tally(c, n as nat));
}

/// The material of the editor board for a search by material (see
/// `material_text`).
pub fn material_search(vec_sq: &Vec<Squares>) -> (t: String)
    ensures
        t@ == material_text(images(vec_sq@), vec_sq.len() as int),
{
    let mut v: Vec<char> = Vec::new();
    push_tally(&mut v, false, 'K', 1);
    push_tally(&mut v, true, 'k', 1);
    push_tally(&mut v, true, 'P', count_image_exec(vec_sq, 'w', 'p'));
    push_tally(&mut v, true, 'p', count_image_exec(vec_sq, 'b', 'p'));
    push_tally(&mut v, true, 'N', count_image_exec(vec_sq, 'w', 'n'));
    push_tally(&mut v, true, 'n', count_image_exec(vec_sq, 'b', 'n'));
    push_tally(&mut v, true, 'B', count_image_exec(vec_sq, 'w', 'b'));
    push_tally(&mut v, true, 'b', count_image_exec(vec_sq, 'b', 'b'));
    push_tally(&mut v, true, 'R', count_image_exec(vec_sq, 'w', 'r'));
    push_tally(&mut v, true, 'r', count_image_exec(vec_sq, 'b', 'r'));
    push_tally(&mut v, true, 'Q', count_image_exec(vec_sq, 'w', 'q'));
    push_tally(&mut v, true, 'q', count_image_exec(vec_sq, 'b', 'q'));
    assert(v@ =~= material_text(images(vec_sq@), vec_sq.len() as int));
    string_from_chars(&v)
}

/// The image of a piece code; None for a code of no piece but the empty one.
pub open spec fn code_image(p: int) -> Option<Seq<char>> {
    if p == 0 { Some(seq!['s', 'q']) } else if p == 1 { Some(seq!['w', 'p']) } else if p == 2 { Some(seq!['w', 'k']) }
    else if p == 3 { Some(seq!['w', 'n']) } else if p == 5 { Some(seq!['w', 'b']) } else if p == 6 { Some(seq!['w', 'r']) }
    else if p == 7 { Some(seq!['w', 'q']) } else if p == 9 { Some(seq!['b', 'p']) } else if p == 10 { Some(seq!['b', 'k']) }
    else if p == 11 { Some(seq!['b', 'n']) } else if p == 13 { Some(seq!['b', 'b']) } else if p == 14 { Some(seq!['b', 'r']) }
    else if p == 15 { Some(seq!['b', 'q']) } else { None }
}

fn code_image_exec(p: i32) -> (r: Option<Vec<char>>)
    ensures
        match r {
            Some(v) => code_image(p as int) == Some(v@),
            None => code_image(p as int) is None,
        },
{
    let (a, b) = if p == 0 { ('s', 'q') } else if p == 1 { ('w', 'p') } else if p == 2 { ('w', 'k') }
        else if p == 3 { ('w', 'n') } else if p == 5 { ('w', 'b') } else if p == 6 { ('w', 'r') }
        else if p == 7 { ('w', 'q') } else if p == 9 { ('b', 'p') } else if p == 10 { ('b', 'k') }
        else if p == 11 { ('b', 'n') } else if p == 13 { ('b', 'b') } else if p == 14 { ('b', 'r') }
        else if p == 15 { ('b', 'q') } else { return None; };
    let mut v: Vec<char> = Vec::new();
    v.push(a);
    v.push(b);
    assert(code_image(p as int) == Some(v@));
    Some(v)
}

/// The FEN passes a quick look: six fields split by single spaces, and a
/// '/' in the first.
pub open spec fn fen_looks_ok(f: Seq<char>) -> bool {
    pieces(f, ' ').len() == 6 && pieces(f, ' ')[0].contains('/')
}

/// Puts the pieces of the FEN `fen` on the editor board: each square gets
/// the image of the piece on it in that position (rank 8 first); a square
/// whose code is no piece keeps its image, and the colours stay.  A FEN
/// that fails the quick look (see `fen_looks_ok`), or cannot be read,
/// leaves the board as it is.
pub fn set_fen(fen: String, vec_boardfen: &mut Vec<Squares>)
    requires
        old(vec_boardfen).len() == 64,
    ensures
        final(vec_boardfen).len() == 64,
        forall|i: int| 0 <= i < 64 ==> (#[trigger] final(vec_boardfen)[i]).sqcolor == old(vec_boardfen)[i].sqcolor,
        forall|i: int| 0 <= i < 64 ==> (#[trigger] final(vec_boardfen)[i]).img_name@ == (if fen_looks_ok(fen@)
            && fen_ok(fen@) {
            match code_image(placement_squares(words(fen@)[0])[picture_square(i)] as int) {
                Some(img) => img,
                None => old(vec_boardfen)[i].img_name@,
            }
        } else {
            old(vec_boardfen)[i].img_name@
        }),
{
    let text = chars_of(fen.as_str());
    let parts = split_chars(&text, ' ');
    if parts.len() != 6 {
        return;
    }
    let first = &parts[0];
    let mut slash = false;
    let mut j: usize = 0;
    while j < first.len()
        invariant
            j <= first.len(),
            slash == (exists|k: int| 0 <= k < j && first@[k] == '/'),
        decreases first.len() - j,
    {
        if first[j] == '/' {
            slash = true;
        }
        j = j + 1;
    }
    assert(slash == pieces(fen@, ' ')[0].contains('/'));
    if !slash || !fen_valid(fen.as_str()) {
        return;
    }
    let mut board = new_board();
    board_set_fen(&mut board, fen.as_str());
    let arr = get_board_array(&mut board);
    let ghost sq = placement_squares(words(fen@)[0]);
    assert(arr@ == sq);
    let ghost before = *vec_boardfen;
    let mut i: usize = 0;
    while i < 64
        invariant
            i <= 64,
            arr@ == sq,
            vec_boardfen.len() == 64,
            before.len() == 64,
            forall|k: int| 0 <= k < 64 ==> (#[trigger] vec_boardfen[k]).sqcolor == before[k].sqcolor,
            forall|k: int| 0 <= k < i ==> (#[trigger] vec_boardfen[k]).img_name@ == match code_image(sq[picture_square(k)] as int) {
                Some(img) => img,
                None => before[k].img_name@,
            },
            forall|k: int| i <= k < 64 ==> (#[trigger] vec_boardfen[k]).img_name@ == before[k].img_name@,
        decreases 64 - i,
    {
        let src = (7 - i / 8) * 8 + i % 8;
        assert(src == picture_square(i as int));
        match code_image_exec(arr[src]) {
            Some(img) => {
                let col = vec_boardfen[i].sqcolor.clone();
                let q = Squares::new(col, string_from_chars(&img));
                vec_boardfen.set(i, q);
            },
            None => {},
        }
        i = i + 1;
    }
}

}
