use vstd::prelude::*;

verus! {

// The SAN token grammar:
//   [piece] [file] [rank] [x] square [[=]promotion] [+ or #]
// with the piece one of P N B R Q K, the promotion one of q r b n Q R B N.
// Each optional part is taken whenever the rest can still be matched,
// earlier parts first, and "=" with a promotion before a promotion alone.
// The possible layouts are numbered in that order of preference: layout
// `c` takes the piece when bit 5 of its mixed-radix number is 0, and so on.

pub open spec fn is_piece_letter(c: char) -> bool {
    c == 'P' || c == 'N' || c == 'B' || c == 'R' || c == 'Q' || c == 'K'
}

pub open spec fn is_file_letter(c: char) -> bool {
    'a' <= c <= 'h'
}

pub open spec fn is_rank_digit(c: char) -> bool {
    '1' <= c <= '8'
}

pub open spec fn is_promo_char(c: char) -> bool {
    c == 'q' || c == 'r' || c == 'b' || c == 'n' || c == 'Q' || c == 'R' || c == 'B' || c == 'N'
}

/// The lengths of the optional parts in layout `c` (0 <= c < 96): piece,
/// file, rank, capture mark, promotion (0, 1 or 2 with "="), check mark.
pub struct SanLayout {
    pub piece: usize,
    pub file: usize,
    pub rank: usize,
    pub capture: usize,
    pub promo: usize,
    pub mark: usize,
}

pub open spec fn layout_of(c: int) -> SanLayout {
    SanLayout {
        piece: (1 - (c / 48) % 2) as usize,
        file: (1 - (c / 24) % 2) as usize,
        rank: (1 - (c / 12) % 2) as usize,
        capture: (1 - (c / 6) % 2) as usize,
        promo: (2 - (c / 2) % 3) as usize,
        mark: (1 - c % 2) as usize,
    }
}

impl SanLayout {
    pub open spec fn file_at(self) -> int { self.piece as int }
    pub open spec fn rank_at(self) -> int { self.file_at() + self.file }
    pub open spec fn capture_at(self) -> int { self.rank_at() + self.rank }
    pub open spec fn square_at(self) -> int { self.capture_at() + self.capture }
    pub open spec fn promo_at(self) -> int { self.square_at() + 2 }
    pub open spec fn mark_at(self) -> int { self.promo_at() + self.promo }
    pub open spec fn end(self) -> int { self.mark_at() + self.mark }

    /// `s` is written in this layout.
    pub open spec fn fits(self, s: Seq<char>) -> bool {
        &&& self.end() == s.len()
        &&& self.piece == 1 ==> is_piece_letter(s[0])
        &&& self.file == 1 ==> is_file_letter(s[self.file_at()])
        &&& self.rank == 1 ==> is_rank_digit(s[self.rank_at()])
        &&& self.capture == 1 ==> s[self.capture_at()] == 'x'
        &&& is_file_letter(s[self.square_at()])
        &&& is_rank_digit(s[self.square_at() + 1])
        &&& self.promo == 2 ==> s[self.promo_at()] == '=' && is_promo_char(s[self.promo_at() + 1])
        &&& self.promo == 1 ==> is_promo_char(s[self.promo_at()])
        &&& self.mark == 1 ==> (s[self.mark_at()] == '+' || s[self.mark_at()] == '#')
    }

    /// The destination square, as written.
    pub open spec fn square(self, s: Seq<char>) -> Seq<char> {
        s.subrange(self.square_at(), self.square_at() + 2)
    }
}

/// The first layout, from `c` on, in which `s` is written; 96 when none.
pub open spec fn first_layout(s: Seq<char>, c: int) -> int
    decreases 96 - c,
{
    if c < 0 || c >= 96 {
        96
    } else if layout_of(c).fits(s) {
        c
    } else {
        first_layout(s, c + 1)
    }
}

/// `s` is SAN as the grammar reads it.
pub open spec fn san_matches(s: Seq<char>) -> bool {
    first_layout(s, 0) < 96
}

/// The layout in which `s` is read.
pub open spec fn san_layout(s: Seq<char>) -> SanLayout {
    layout_of(first_layout(s, 0))
}

fn is_piece_letter_exec(c: char) -> (r: bool)
    ensures
        r == is_piece_letter(c),
{
    c == 'P' || c == 'N' || c == 'B' || c == 'R' || c == 'Q' || c == 'K'
}

fn is_promo_char_exec(c: char) -> (r: bool)
    ensures
        r == is_promo_char(c),
{
    c == 'q' || c == 'r' || c == 'b' || c == 'n' || c == 'Q' || c == 'R' || c == 'B' || c == 'N'
}

fn layout_exec(c: usize) -> (l: SanLayout)
    requires
        c < 96,
    ensures
        l == layout_of(c as int),
{
    SanLayout {
        piece: 1 - (c / 48) % 2,
        file: 1 - (c / 24) % 2,
        rank: 1 - (c / 12) % 2,
        capture: 1 - (c / 6) % 2,
        promo: 2 - (c / 2) % 3,
        mark: 1 - c % 2,
    }
}

/// Whether `s` is written in layout `l`.
fn fits_exec(l: &SanLayout, s: &Vec<char>) -> (r: bool)
    requires
        l.piece <= 1,
        l.file <= 1,
        l.rank <= 1,
        l.capture <= 1,
        l.promo <= 2,
        l.mark <= 1,
    ensures
        r == l.fits(s@),
{
    let fa = l.piece;
    let ra = fa + l.file;
    let ca = ra + l.rank;
    let sa = ca + l.capture;
    let pa = sa + 2;
    let ma = pa + l.promo;
    let e = ma + l.mark;
    if e != s.len() {
        return false;
    }
    if l.piece == 1 && !is_piece_letter_exec(s[0]) {
        return false;
    }
    if l.file == 1 && !('a' <= s[fa] && s[fa] <= 'h') {
        return false;
    }
    if l.rank == 1 && !('1' <= s[ra] && s[ra] <= '8') {
        return false;
    }
    if l.capture == 1 && s[ca] != 'x' {
        return false;
    }
    if !('a' <= s[sa] && s[sa] <= 'h') || !('1' <= s[sa + 1] && s[sa + 1] <= '8') {
        return false;
    }
    if l.promo == 2 && !(s[pa] == '=' && is_promo_char_exec(s[pa + 1])) {
        return false;
    }
    if l.promo == 1 && !is_promo_char_exec(s[pa]) {
        return false;
    }
    if l.mark == 1 && !(s[ma] == '+' || s[ma] == '#') {
        return false;
    }
    true
}

/// Reads `s` by the SAN grammar: the layout it is written in, if any.
pub fn parse_san(s: &Vec<char>) -> (r: Option<SanLayout>)
    ensures
        r.is_some() == san_matches(s@),
        r.is_some() ==> r.unwrap() == san_layout(s@),
{
    let mut c: usize = 0;
    while c < 96
        invariant
            c <= 96,
            first_layout(s@, c as int) == first_layout(s@, 0),
        decreases 96 - c,
    {
        let l = layout_exec(c);
        if fits_exec(&l, s) {
            return Some(l);
        }
        c = c + 1;
    }
    None
}

}
