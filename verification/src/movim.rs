use vstd::prelude::*;
use crate::globs::{square_name, push_square_name};
use crate::strutil::string_from_chars;
use crate::tables::AttackTables;
use crate::bitops::lemma_and63;


verus! {

//  A move stored in 32 bits by shifts and masks:
//  from (bits 0..5), to square (6..11), piece (12..15), captured piece (16..19)
//  and promotion piece (20..23).  A promotion field equal to a pawn marks an
//  en-passant capture, one equal to a king marks castling.
#[derive(Clone, Copy, Debug)]
pub struct Movim {
    pub move_int: u32,
}

impl Movim {
    /// Origin square (bits 0..5).
    pub open spec fn from_sq(self) -> u32 {
        self.move_int & 0x3f
    }

    /// Destination square (bits 6..11).
    pub open spec fn to_sq(self) -> u32 {
        (self.move_int >> 6) & 0x3f
    }

    /// Moving piece (bits 12..15).
    pub open spec fn piec(self) -> u32 {
        (self.move_int >> 12) & 0xf
    }

    /// Captured piece (bits 16..19).
    pub open spec fn capt(self) -> u32 {
        (self.move_int >> 16) & 0xf
    }

    /// Promotion piece (bits 20..23).
    pub open spec fn prom(self) -> u32 {
        (self.move_int >> 20) & 0xf
    }

    /// Bits 24..31, which no field uses.
    pub open spec fn high(self) -> u32 {
        self.move_int >> 24
    }

    pub open spec fn spec_is_capture(self) -> bool {
        self.capt() != 0
    }

    pub open spec fn spec_is_enpassant(self) -> bool {
        self.prom() % 8 == 1
    }

    pub open spec fn spec_is_promotion(self) -> bool {
        self.prom() % 8 > 2
    }

    pub open spec fn spec_is_castle(self) -> bool {
        self.prom() % 8 == 2
    }

    pub open spec fn spec_is_castle_oo(self) -> bool {
        self.prom() % 8 == 2 && self.to_sq() % 8 == 6
    }

    pub open spec fn spec_is_castle_ooo(self) -> bool {
        self.prom() % 8 == 2 && self.to_sq() % 8 == 2
    }

    pub open spec fn spec_is_pawn_move(self) -> bool {
        self.piec() % 8 == 1
    }

    pub open spec fn spec_is_pawn_doublemove(self) -> bool {
        &&& self.piec() % 8 == 1
        &&& ((self.from_sq() / 8 == 1 && self.to_sq() / 8 == 3) || (self.from_sq() / 8 == 6
            && self.to_sq() / 8 == 4))
    }

    /// Relates the masks that the predicates test to the fields.
    pub proof fn lemma_masks(self)
        ensures
            (self.move_int & 0x000f0000 != 0) == self.spec_is_capture(),
            ((self.move_int & 0x00700000) == 0x00100000) == self.spec_is_enpassant(),
            ((self.move_int & 0x00700000) > 0x00200000) == self.spec_is_promotion(),
            ((self.move_int & 0x00700000) == 0x00200000) == self.spec_is_castle(),
            ((self.move_int & 0x007001c0) == 0x00200180) == self.spec_is_castle_oo(),
            ((self.move_int & 0x007001c0) == 0x00200080) == self.spec_is_castle_ooo(),
            ((!self.move_int & 0x00008000) == 0x00008000) == (self.piec() < 8),
            ((self.move_int & 0x00008000) == 0x00008000) == (self.piec() >= 8),
            ((self.move_int & 0x00070000) == 0x00020000) == (self.capt() % 8 == 2),
            ((self.move_int & 0x00007000) == 0x00006000) == (self.piec() % 8 == 6),
            ((self.move_int & 0x00070000) == 0x00060000) == (self.capt() % 8 == 6),
            ((self.move_int & 0x00007000) == 0x00002000) == (self.piec() % 8 == 2),
            ((self.move_int & 0x00007000) == 0x00001000) == self.spec_is_pawn_move(),
            ((((self.move_int & 0x00007000) == 0x00001000) && ((((self.move_int & 0x00000038)
                == 0x00000008) && ((self.move_int & 0x00000e00) == 0x00000600)) || (((
            self.move_int & 0x00000038) == 0x00000030) && ((self.move_int & 0x00000e00)
                == 0x00000800))))) == self.spec_is_pawn_doublemove(),
            self.from_sq() < 64,
            self.to_sq() < 64,
            self.piec() < 16,
            self.capt() < 16,
            self.prom() < 16,
    {
        let m = self.move_int;
        assert({
            &&& (m & 0x000f0000 != 0) == (((m >> 16) & 0xf) != 0)
            &&& ((m & 0x00700000) == 0x00100000) == (((m >> 20) & 0xf) % 8 == 1)
            &&& ((m & 0x00700000) > 0x00200000) == (((m >> 20) & 0xf) % 8 > 2)
            &&& ((m & 0x00700000) == 0x00200000) == (((m >> 20) & 0xf) % 8 == 2)
            &&& ((m & 0x007001c0) == 0x00200180) == (((m >> 20) & 0xf) % 8 == 2 && ((m >> 6)
                & 0x3f) % 8 == 6)
            &&& ((m & 0x007001c0) == 0x00200080) == (((m >> 20) & 0xf) % 8 == 2 && ((m >> 6)
                & 0x3f) % 8 == 2)
            &&& ((!m & 0x00008000) == 0x00008000) == (((m >> 12) & 0xf) < 8)
            &&& ((m & 0x00008000) == 0x00008000) == (((m >> 12) & 0xf) >= 8)
            &&& ((m & 0x00070000) == 0x00020000) == (((m >> 16) & 0xf) % 8 == 2)
            &&& ((m & 0x00007000) == 0x00006000) == (((m >> 12) & 0xf) % 8 == 6)
            &&& ((m & 0x00070000) == 0x00060000) == (((m >> 16) & 0xf) % 8 == 6)
            &&& ((m & 0x00007000) == 0x00002000) == (((m >> 12) & 0xf) % 8 == 2)
            &&& ((m & 0x00007000) == 0x00001000) == (((m >> 12) & 0xf) % 8 == 1)
            &&& ((((m & 0x00007000) == 0x00001000) && ((((m & 0x00000038) == 0x00000008) && ((m
                & 0x00000e00) == 0x00000600)) || (((m & 0x00000038) == 0x00000030) && ((m
                & 0x00000e00) == 0x00000800))))) == (((m >> 12) & 0xf) % 8 == 1 && (((m & 0x3f)
                / 8 == 1 && ((m >> 6) & 0x3f) / 8 == 3) || ((m & 0x3f) / 8 == 6 && ((m >> 6)
                & 0x3f) / 8 == 4)))
            &&& (m & 0x3f) < 64 && ((m >> 6) & 0x3f) < 64 && ((m >> 12) & 0xf) < 16
            &&& ((m >> 16) & 0xf) < 16 && ((m >> 20) & 0xf) < 16
        }) by (bit_vector);
    }

    /// What each setter does to the fields.
    pub proof fn lemma_setters(m: u32, v: u32)
        ensures
            ({
                let s = Movim { move_int: (m & 0xffffffc0) | (v & 0x0000003f) };
                let o = Movim { move_int: m };
                s.from_sq() == v & 0x3f && s.to_sq() == o.to_sq() && s.piec() == o.piec()
                    && s.capt() == o.capt() && s.prom() == o.prom() && s.high() == o.high()
            }),
            ({
                let s = Movim { move_int: (m & 0xfffff03f) | ((v & 0x0000003f) << 6) };
                let o = Movim { move_int: m };
                s.from_sq() == o.from_sq() && s.to_sq() == v & 0x3f && s.piec() == o.piec()
                    && s.capt() == o.capt() && s.prom() == o.prom() && s.high() == o.high()
            }),
            ({
                let s = Movim { move_int: (m & 0xffff0fff) | ((v & 0x0000000f) << 12) };
                let o = Movim { move_int: m };
                s.from_sq() == o.from_sq() && s.to_sq() == o.to_sq() && s.piec() == v & 0xf
                    && s.capt() == o.capt() && s.prom() == o.prom() && s.high() == o.high()
            }),
            ({
                let s = Movim { move_int: (m & 0xfff0ffff) | ((v & 0x0000000f) << 16) };
                let o = Movim { move_int: m };
                s.from_sq() == o.from_sq() && s.to_sq() == o.to_sq() && s.piec() == o.piec()
                    && s.capt() == v & 0xf && s.prom() == o.prom() && s.high() == o.high()
            }),
            ({
                let s = Movim { move_int: (m & 0xff0fffff) | ((v & 0x0000000f) << 20) };
                let o = Movim { move_int: m };
                s.from_sq() == o.from_sq() && s.to_sq() == o.to_sq() && s.piec() == o.piec()
                    && s.capt() == o.capt() && s.prom() == v & 0xf && s.high() == o.high()
            }),
    {
        assert({
            &&& (((m & 0xffffffc0) | (v & 0x3f)) & 0x3f) == v & 0x3f
            &&& ((((m & 0xffffffc0) | (v & 0x3f)) >> 6) & 0x3f) == (m >> 6) & 0x3f
            &&& ((((m & 0xffffffc0) | (v & 0x3f)) >> 12) & 0xf) == (m >> 12) & 0xf
            &&& ((((m & 0xffffffc0) | (v & 0x3f)) >> 16) & 0xf) == (m >> 16) & 0xf
            &&& ((((m & 0xffffffc0) | (v & 0x3f)) >> 20) & 0xf) == (m >> 20) & 0xf
            &&& (((m & 0xffffffc0) | (v & 0x3f)) >> 24) == m >> 24
            &&& (((m & 0xfffff03f) | ((v & 0x3f) << 6)) & 0x3f) == m & 0x3f
            &&& ((((m & 0xfffff03f) | ((v & 0x3f) << 6)) >> 6) & 0x3f) == v & 0x3f
            &&& ((((m & 0xfffff03f) | ((v & 0x3f) << 6)) >> 12) & 0xf) == (m >> 12) & 0xf
            &&& ((((m & 0xfffff03f) | ((v & 0x3f) << 6)) >> 16) & 0xf) == (m >> 16) & 0xf
            &&& ((((m & 0xfffff03f) | ((v & 0x3f) << 6)) >> 20) & 0xf) == (m >> 20) & 0xf
            &&& (((m & 0xfffff03f) | ((v & 0x3f) << 6)) >> 24) == m >> 24
            &&& (((m & 0xffff0fff) | ((v & 0xf) << 12)) & 0x3f) == m & 0x3f
            &&& ((((m & 0xffff0fff) | ((v & 0xf) << 12)) >> 6) & 0x3f) == (m >> 6) & 0x3f
            &&& ((((m & 0xffff0fff) | ((v & 0xf) << 12)) >> 12) & 0xf) == v & 0xf
            &&& ((((m & 0xffff0fff) | ((v & 0xf) << 12)) >> 16) & 0xf) == (m >> 16) & 0xf
            &&& ((((m & 0xffff0fff) | ((v & 0xf) << 12)) >> 20) & 0xf) == (m >> 20) & 0xf
            &&& (((m & 0xffff0fff) | ((v & 0xf) << 12)) >> 24) == m >> 24
            &&& (((m & 0xfff0ffff) | ((v & 0xf) << 16)) & 0x3f) == m & 0x3f
            &&& ((((m & 0xfff0ffff) | ((v & 0xf) << 16)) >> 6) & 0x3f) == (m >> 6) & 0x3f
            &&& ((((m & 0xfff0ffff) | ((v & 0xf) << 16)) >> 12) & 0xf) == (m >> 12) & 0xf
            &&& ((((m & 0xfff0ffff) | ((v & 0xf) << 16)) >> 16) & 0xf) == v & 0xf
            &&& ((((m & 0xfff0ffff) | ((v & 0xf) << 16)) >> 20) & 0xf) == (m >> 20) & 0xf
            &&& (((m & 0xfff0ffff) | ((v & 0xf) << 16)) >> 24) == m >> 24
            &&& (((m & 0xff0fffff) | ((v & 0xf) << 20)) & 0x3f) == m & 0x3f
            &&& ((((m & 0xff0fffff) | ((v & 0xf) << 20)) >> 6) & 0x3f) == (m >> 6) & 0x3f
            &&& ((((m & 0xff0fffff) | ((v & 0xf) << 20)) >> 12) & 0xf) == (m >> 12) & 0xf
            &&& ((((m & 0xff0fffff) | ((v & 0xf) << 20)) >> 16) & 0xf) == (m >> 16) & 0xf
            &&& ((((m & 0xff0fffff) | ((v & 0xf) << 20)) >> 20) & 0xf) == v & 0xf
            &&& (((m & 0xff0fffff) | ((v & 0xf) << 20)) >> 24) == m >> 24
        }) by (bit_vector);
    }

    pub fn new() -> (m: Self)
        ensures
            m.move_int == 0,
    {
        Movim { move_int: 0 }
    }

    pub fn clear(&mut self)
        ensures
            final(self).move_int == 0,
    {
        self.move_int = 0;
    }

    pub fn set_from(&mut self, from: u32)
        ensures
            final(self).move_int == (old(self).move_int & 0xffffffc0) | (from & 0x3f),
            final(self).from_sq() == from & 0x3f,
            final(self).to_sq() == old(self).to_sq(),
            final(self).piec() == old(self).piec(),
            final(self).capt() == old(self).capt(),
            final(self).prom() == old(self).prom(),
            final(self).high() == old(self).high(),
    {
        proof { Movim::lemma_setters(self.move_int, from); }
        self.move_int = (self.move_int & 0xffffffc0) | (from & 0x0000003f);
    }

    pub fn set_to_sq(&mut self, tosq: u32)
        ensures
            final(self).move_int == (old(self).move_int & 0xfffff03f) | ((tosq & 0x3f) << 6),
            final(self).from_sq() == old(self).from_sq(),
            final(self).to_sq() == tosq & 0x3f,
            final(self).piec() == old(self).piec(),
            final(self).capt() == old(self).capt(),
            final(self).prom() == old(self).prom(),
            final(self).high() == old(self).high(),
    {
        proof { Movim::lemma_setters(self.move_int, tosq); }
        self.move_int = (self.move_int & 0xfffff03f) | ((tosq & 0x0000003f) << 6);
    }

    pub fn set_piec(&mut self, piec: u32)
        ensures
            final(self).move_int == (old(self).move_int & 0xffff0fff) | ((piec & 0xf) << 12),
            final(self).from_sq() == old(self).from_sq(),
            final(self).to_sq() == old(self).to_sq(),
            final(self).piec() == piec & 0xf,
            final(self).capt() == old(self).capt(),
            final(self).prom() == old(self).prom(),
            final(self).high() == old(self).high(),
    {
        proof { Movim::lemma_setters(self.move_int, piec); }
        self.move_int = (self.move_int & 0xffff0fff) | ((piec & 0x0000000f) << 12);
    }

    pub fn set_capt(&mut self, capt: u32)
        ensures
            final(self).move_int == (old(self).move_int & 0xfff0ffff) | ((capt & 0xf) << 16),
            final(self).from_sq() == old(self).from_sq(),
            final(self).to_sq() == old(self).to_sq(),
            final(self).piec() == old(self).piec(),
            final(self).capt() == capt & 0xf,
            final(self).prom() == old(self).prom(),
            final(self).high() == old(self).high(),
    {
        proof { Movim::lemma_setters(self.move_int, capt); }
        self.move_int = (self.move_int & 0xfff0ffff) | ((capt & 0x0000000f) << 16);
    }

    pub fn set_prom(&mut self, prom: u32)
        ensures
            final(self).move_int == (old(self).move_int & 0xff0fffff) | ((prom & 0xf) << 20),
            final(self).from_sq() == old(self).from_sq(),
            final(self).to_sq() == old(self).to_sq(),
            final(self).piec() == old(self).piec(),
            final(self).capt() == old(self).capt(),
            final(self).prom() == prom & 0xf,
            final(self).high() == old(self).high(),
    {
        proof { Movim::lemma_setters(self.move_int, prom); }
        self.move_int = (self.move_int & 0xff0fffff) | ((prom & 0x0000000f) << 20);
    }

    pub fn get_from(self) -> (r: u32)
        ensures
            r == self.from_sq(),
            r < 64,
    {
        proof { self.lemma_masks(); }
        self.move_int & 0x0000003f
    }

    pub fn get_to_sq(self) -> (r: u32)
        ensures
            r == self.to_sq(),
            r < 64,
    {
        proof { self.lemma_masks(); }
        (self.move_int >> 6) & 0x0000003f
    }

    pub fn get_piec(self) -> (r: u32)
        ensures
            r == self.piec(),
            r < 16,
    {
        proof { self.lemma_masks(); }
        (self.move_int >> 12) & 0x0000000f
    }

    pub fn get_capt(self) -> (r: u32)
        ensures
            r == self.capt(),
            r < 16,
    {
        proof { self.lemma_masks(); }
        (self.move_int >> 16) & 0x0000000f
    }

    pub fn get_prom(self) -> (r: u32)
        ensures
            r == self.prom(),
            r < 16,
    {
        proof { self.lemma_masks(); }
        (self.move_int >> 20) & 0x0000000f
    }

    /// Piece of colour white: bit 15 clear.
    pub fn is_whitemove(self) -> (r: bool)
        ensures
            r == (self.piec() < 8),
    {
        proof { self.lemma_masks(); }
        (!self.move_int & 0x00008000) == 0x00008000
    }

    /// Piece of colour black: bit 15 set.
    pub fn is_blackmove(self) -> (r: bool)
        ensures
            r == (self.piec() >= 8),
    {
        proof { self.lemma_masks(); }
        (self.move_int & 0x00008000) == 0x00008000
    }

    pub fn is_capture(self) -> (r: bool)
        ensures
            r == self.spec_is_capture(),
    {
        proof { self.lemma_masks(); }
        (self.move_int & 0x000f0000) != 0x00000000
    }

    pub fn is_kingcaptured(self) -> (r: bool)
        ensures
            r == (self.capt() % 8 == 2),
    {
        proof { self.lemma_masks(); }
        (self.move_int & 0x00070000) == 0x00020000
    }

    pub fn is_rookmove(self) -> (r: bool)
        ensures
            r == (self.piec() % 8 == 6),
    {
        proof { self.lemma_masks(); }
        (self.move_int & 0x00007000) == 0x00006000
    }

    pub fn is_rookcaptured(self) -> (r: bool)
        ensures
            r == (self.capt() % 8 == 6),
    {
        proof { self.lemma_masks(); }
        (self.move_int & 0x00070000) == 0x00060000
    }

    pub fn is_kingmove(self) -> (r: bool)
        ensures
            r == (self.piec() % 8 == 2),
    {
        proof { self.lemma_masks(); }
        (self.move_int & 0x00007000) == 0x00002000
    }

    pub fn is_pawn_move(self) -> (r: bool)
        ensures
            r == self.spec_is_pawn_move(),
    {
        proof { self.lemma_masks(); }
        (self.move_int & 0x00007000) == 0x00001000
    }

    /// A pawn moving two squares: from rank 2 to rank 4, or from rank 7 to rank 5.
    pub fn is_pawn_doublemove(self) -> (r: bool)
        ensures
            r == self.spec_is_pawn_doublemove(),
    {
        proof { self.lemma_masks(); }
        ((self.move_int & 0x00007000) == 0x00001000) && ((((self.move_int & 0x00000038)
            == 0x00000008) && ((self.move_int & 0x00000e00) == 0x00000600)) || (((self.move_int
            & 0x00000038) == 0x00000030) && ((self.move_int & 0x00000e00) == 0x00000800)))
    }

    /// The promotion field holds a pawn.
    pub fn is_enpassant(self) -> (r: bool)
        ensures
            r == self.spec_is_enpassant(),
    {
        proof { self.lemma_masks(); }
        (self.move_int & 0x00700000) == 0x00100000
    }

    /// The promotion field holds a piece other than a pawn or a king.
    pub fn is_promotion(self) -> (r: bool)
        ensures
            r == self.spec_is_promotion(),
    {
        proof { self.lemma_masks(); }
        (self.move_int & 0x00700000) > 0x00200000
    }

    /// The promotion field holds a king.
    pub fn is_castle(self) -> (r: bool)
        ensures
            r == self.spec_is_castle(),
    {
        proof { self.lemma_masks(); }
        (self.move_int & 0x00700000) == 0x00200000
    }

    /// Castling to the g-file.
    pub fn is_castle_oo(self) -> (r: bool)
        ensures
            r == self.spec_is_castle_oo(),
    {
        proof { self.lemma_masks(); }
        (self.move_int & 0x007001c0) == 0x00200180
    }

    /// Castling to the c-file.
    pub fn is_castle_ooo(self) -> (r: bool)
        ensures
            r == self.spec_is_castle_ooo(),
    {
        proof { self.lemma_masks(); }
        (self.move_int & 0x007001c0) == 0x00200080
    }
}


/// The letter of a promotion piece in UCI notation.
pub open spec fn uci_promo_chars(prom: u32) -> Seq<char> {
    if prom == 6 || prom == 14 { seq!['r'] }
    else if prom == 5 || prom == 13 { seq!['b'] }
    else if prom == 3 || prom == 11 { seq!['n'] }
    else if prom == 2 || prom == 10 { seq!['k'] }
    else if prom == 7 || prom == 15 { seq!['q'] }
    else { seq![] }
}

/// A move in UCI notation ("e2e4", "e7e8q"; castling as the king's move).
pub open spec fn uci_chars(m: Movim) -> Seq<char> {
    if m.piec() == 2 && m.spec_is_castle_oo() { seq!['e', '1', 'g', '1'] }
    else if m.piec() == 2 && m.spec_is_castle_ooo() { seq!['e', '1', 'c', '1'] }
    else if m.piec() == 10 && m.spec_is_castle_oo() { seq!['e', '8', 'g', '8'] }
    else if m.piec() == 10 && m.spec_is_castle_ooo() { seq!['e', '8', 'c', '8'] }
    else {
        square_name(m.from_sq() as int) + square_name(m.to_sq() as int) + (if m.spec_is_promotion() {
            uci_promo_chars(m.prom())
        } else {
            seq![]
        })
    }
}

impl Movim {
    /// The characters of the move in UCI notation.
    pub fn uci_vec(self) -> (v: Vec<char>)
        ensures
            v@ == uci_chars(self),
    {
        let mut v: Vec<char> = Vec::new();
        let piec = self.get_piec();
        if piec == 2 && self.is_castle_oo() {
            v.push('e'); v.push('1'); v.push('g'); v.push('1');
            return v;
        }
        if piec == 2 && self.is_castle_ooo() {
            v.push('e'); v.push('1'); v.push('c'); v.push('1');
            return v;
        }
        if piec == 10 && self.is_castle_oo() {
            v.push('e'); v.push('8'); v.push('g'); v.push('8');
            return v;
        }
        if piec == 10 && self.is_castle_ooo() {
            v.push('e'); v.push('8'); v.push('c'); v.push('8');
            return v;
        }
        push_square_name(&mut v, self.get_from() as usize);
        push_square_name(&mut v, self.get_to_sq() as usize);
        let ghost base = v@;
        if self.is_promotion() {
            let prom = self.get_prom();
            if prom == 6 || prom == 14 { v.push('r'); }
            if prom == 5 || prom == 13 { v.push('b'); }
            if prom == 3 || prom == 11 { v.push('n'); }
            if prom == 2 || prom == 10 { v.push('k'); }
            if prom == 7 || prom == 15 { v.push('q'); }
            assert(v@ == base + uci_promo_chars(prom));
        } else {
            assert(v@ == base + seq![]);
        }
        v
    }

    /// The move in UCI notation.
    pub fn get_uci(self) -> (s: String)
        ensures
            s@ == uci_chars(self),
    {
        let v = self.uci_vec();
        string_from_chars(&v)
    }
}


/// Index into the rank attack table: the inner occupancy of the rank.
pub open spec fn rank_idx(t: AttackTables, a: int, occ: u64) -> int {
    (((occ & t.rankmask[a]) >> ((8 * (a / 8) + 1) as u64)) & 63u64) as int
}

/// Index into the file attack table: the inner occupancy of the file,
/// gathered by the magic multiplication.
pub open spec fn file_idx(t: AttackTables, a: int, occ: u64) -> int {
    ((vstd::wrapping::u64_specs::wrapping_mul(occ & t.filemask[a], t.filemagic[a]) >> 57u64) & 63u64) as int
}

pub open spec fn diag8_idx(t: AttackTables, a: int, occ: u64) -> int {
    ((vstd::wrapping::u64_specs::wrapping_mul(occ & t.diaga8h1mask[a], t.diaga8h1magic[a]) >> 57u64) & 63u64) as int
}

pub open spec fn diag1_idx(t: AttackTables, a: int, occ: u64) -> int {
    ((vstd::wrapping::u64_specs::wrapping_mul(occ & t.diaga1h8mask[a], t.diaga1h8magic[a]) >> 57u64) & 63u64) as int
}

pub open spec fn rankmoves_spec(t: AttackTables, a: int, target: u64, occ: u64) -> u64 {
    t.rank_attacks[a][rank_idx(t, a, occ)] & target
}

pub open spec fn filemoves_spec(t: AttackTables, a: int, target: u64, occ: u64) -> u64 {
    t.file_attacks[a][file_idx(t, a, occ)] & target
}

pub open spec fn a8h1moves_spec(t: AttackTables, a: int, target: u64, occ: u64) -> u64 {
    t.diaga8h1_attacks[a][diag8_idx(t, a, occ)] & target
}

pub open spec fn a1h8moves_spec(t: AttackTables, a: int, target: u64, occ: u64) -> u64 {
    t.diaga1h8_attacks[a][diag1_idx(t, a, occ)] & target
}

pub open spec fn bishopmoves_spec(t: AttackTables, a: int, target: u64, occ: u64) -> u64 {
    a8h1moves_spec(t, a, target, occ) | a1h8moves_spec(t, a, target, occ)
}

pub open spec fn rookmoves_spec(t: AttackTables, a: int, target: u64, occ: u64) -> u64 {
    rankmoves_spec(t, a, target, occ) | filemoves_spec(t, a, target, occ)
}

pub open spec fn queenmoves_spec(t: AttackTables, a: int, target: u64, occ: u64) -> u64 {
    bishopmoves_spec(t, a, target, occ) | rookmoves_spec(t, a, target, occ)
}

proof fn lemma_table_sizes(t: AttackTables)
    requires
        t.wf(),
    ensures
        t.rankmask.len() == 64,
        t.filemask.len() == 64,
        t.filemagic.len() == 64,
        t.diaga8h1mask.len() == 64,
        t.diaga8h1magic.len() == 64,
        t.diaga1h8mask.len() == 64,
        t.diaga1h8magic.len() == 64,
        t.rank_attacks.len() == 64,
        t.file_attacks.len() == 64,
        t.diaga8h1_attacks.len() == 64,
        t.diaga1h8_attacks.len() == 64,
        forall|i: int| 0 <= i < 64 ==> (#[trigger] t.rank_attacks[i]).len() == 64,
        forall|i: int| 0 <= i < 64 ==> (#[trigger] t.file_attacks[i]).len() == 64,
        forall|i: int| 0 <= i < 64 ==> (#[trigger] t.diaga8h1_attacks[i]).len() == 64,
        forall|i: int| 0 <= i < 64 ==> (#[trigger] t.diaga1h8_attacks[i]).len() == 64,
{
    assert(t.t64(8) == t.rankmask);
    assert(t.t64(9) == t.filemask);
    assert(t.t64(10) == t.filemagic);
    assert(t.t64(11) == t.diaga8h1mask);
    assert(t.t64(12) == t.diaga8h1magic);
    assert(t.t64(13) == t.diaga1h8mask);
    assert(t.t64(14) == t.diaga1h8magic);
    assert(t.t4096(0) == t.rank_attacks);
    assert(t.t4096(1) == t.file_attacks);
    assert(t.t4096(2) == t.diaga8h1_attacks);
    assert(t.t4096(3) == t.diaga1h8_attacks);
}

/// Rook-like attacks along the rank of `a`, restricted to `target_bitmap`.
pub fn mov_rankmoves(a: u32, target_bitmap: u64, occupiedsq: u64, t: &AttackTables) -> (x: u64)
    requires
        a < 64,
        t.wf(),
    ensures
        x == rankmoves_spec(*t, a as int, target_bitmap, occupiedsq),
{
    proof { lemma_table_sizes(*t); }
    let sh = (occupiedsq & t.rankmask[a as usize]) >> ((8 * (a / 8) + 1) as u64);
    let v = sh & 63;
    proof { lemma_and63(sh); }
    t.rank_attacks[a as usize][v as usize] & target_bitmap
}

/// Rook-like attacks along the file of `a`, restricted to `target_bitmap`.
pub fn mov_filemoves(a: u32, target_bitmap: u64, occupiedsq: u64, t: &AttackTables) -> (x: u64)
    requires
        a < 64,
        t.wf(),
    ensures
        x == filemoves_spec(*t, a as int, target_bitmap, occupiedsq),
{
    proof { lemma_table_sizes(*t); }
    let p = (occupiedsq & t.filemask[a as usize]).wrapping_mul(t.filemagic[a as usize]);
    let v = (p >> 57) & 63;
    proof { lemma_and63(p >> 57); }
    t.file_attacks[a as usize][v as usize] & target_bitmap
}

/// Bishop-like attacks along the a8-h1 diagonal of `a`, restricted to `target_bitmap`.
pub fn mov_slide_a8h1_moves(a: u32, target_bitmap: u64, occupiedsq: u64, t: &AttackTables) -> (x: u64)
    requires
        a < 64,
        t.wf(),
    ensures
        x == a8h1moves_spec(*t, a as int, target_bitmap, occupiedsq),
{
    proof { lemma_table_sizes(*t); }
    let p = (occupiedsq & t.diaga8h1mask[a as usize]).wrapping_mul(t.diaga8h1magic[a as usize]);
    let v = (p >> 57) & 63;
    proof { lemma_and63(p >> 57); }
    t.diaga8h1_attacks[a as usize][v as usize] & target_bitmap
}

/// Bishop-like attacks along the a1-h8 diagonal of `a`, restricted to `target_bitmap`.
pub fn mov_slide_a1h8_moves(a: u32, target_bitmap: u64, occupiedsq: u64, t: &AttackTables) -> (x: u64)
    requires
        a < 64,
        t.wf(),
    ensures
        x == a1h8moves_spec(*t, a as int, target_bitmap, occupiedsq),
{
    proof { lemma_table_sizes(*t); }
    let p = (occupiedsq & t.diaga1h8mask[a as usize]).wrapping_mul(t.diaga1h8magic[a as usize]);
    let v = (p >> 57) & 63;
    proof { lemma_and63(p >> 57); }
    t.diaga1h8_attacks[a as usize][v as usize] & target_bitmap
}

pub fn mov_bishopmoves(a: u32, target_bitmap: u64, occupiedsq: u64, t: &AttackTables) -> (x: u64)
    requires
        a < 64,
        t.wf(),
    ensures
        x == bishopmoves_spec(*t, a as int, target_bitmap, occupiedsq),
{
    mov_slide_a8h1_moves(a, target_bitmap, occupiedsq, t) | mov_slide_a1h8_moves(a, target_bitmap, occupiedsq, t)
}

pub fn mov_rookmoves(a: u32, target_bitmap: u64, occupiedsq: u64, t: &AttackTables) -> (x: u64)
    requires
        a < 64,
        t.wf(),
    ensures
        x == rookmoves_spec(*t, a as int, target_bitmap, occupiedsq),
{
    mov_rankmoves(a, target_bitmap, occupiedsq, t) | mov_filemoves(a, target_bitmap, occupiedsq, t)
}

pub fn mov_queenmoves(a: u32, target_bitmap: u64, occupiedsq: u64, t: &AttackTables) -> (x: u64)
    requires
        a < 64,
        t.wf(),
    ensures
        x == queenmoves_spec(*t, a as int, target_bitmap, occupiedsq),
{
    mov_bishopmoves(a, target_bitmap, occupiedsq, t) | mov_rookmoves(a, target_bitmap, occupiedsq, t)
}

/// A castling move: the king (`piece`) goes from `from` to `to`, nothing is
/// taken, and the promotion field holds the king, as castling is marked.
fn castle_move(piece: u32, from: u32, to: u32) -> (m: Movim)
    requires
        piece < 16,
        from < 64,
        to < 64,
    ensures
        m.from_sq() == from,
        m.to_sq() == to,
        m.piec() == piece,
        m.capt() == 0,
        m.prom() == piece,
        m.high() == 0,
{
    let mut mov = Movim::new();
    mov.clear();
    assert((0u32 >> 24u32) == 0u32 && ((0u32 >> 16u32) & 0xfu32) == 0u32) by (bit_vector);
    assert(((0u32 >> 12u32) & 0xfu32) == 0u32 && ((0u32 >> 20u32) & 0xfu32) == 0u32) by (bit_vector);
    assert((0u32 & 0x3fu32) == 0u32 && ((0u32 >> 6u32) & 0x3fu32) == 0u32) by (bit_vector);
    mov.set_capt(0);
    mov.set_piec(piece);
    mov.set_prom(piece);
    mov.set_from(from);
    mov.set_to_sq(to);
    assert((piece & 0xfu32) == piece) by (bit_vector) requires piece < 16u32;
    assert((from & 0x3fu32) == from) by (bit_vector) requires from < 64u32;
    assert((to & 0x3fu32) == to) by (bit_vector) requires to < 64u32;
    assert((0u32 & 0xfu32) == 0u32) by (bit_vector);
    mov
}

/// White's short castling, e1 to g1, as a move.
pub fn mov_white_oo_castle() -> (m: Movim)
    ensures
        m.from_sq() == 4 && m.to_sq() == 6 && m.piec() == 2 && m.capt() == 0 && m.prom() == 2 && m.high() == 0,
{
    castle_move(2, 4, 6)
}

/// Black's short castling, e8 to g8, as a move.
pub fn mov_black_oo_castle() -> (m: Movim)
    ensures
        m.from_sq() == 60 && m.to_sq() == 62 && m.piec() == 10 && m.capt() == 0 && m.prom() == 10 && m.high() == 0,
{
    castle_move(10, 60, 62)
}

/// White's long castling, e1 to c1, as a move.
pub fn mov_white_ooo_castle() -> (m: Movim)
    ensures
        m.from_sq() == 4 && m.to_sq() == 2 && m.piec() == 2 && m.capt() == 0 && m.prom() == 2 && m.high() == 0,
{
    castle_move(2, 4, 2)
}

/// Black's long castling, e8 to c8, as a move.
pub fn mov_black_ooo_castle() -> (m: Movim)
    ensures
        m.from_sq() == 60 && m.to_sq() == 58 && m.piec() == 10 && m.capt() == 0 && m.prom() == 10 && m.high() == 0,
{
    castle_move(10, 60, 58)
}

}
