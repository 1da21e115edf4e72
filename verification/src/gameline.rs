use vstd::prelude::*;
use crate::movim::Movim;

verus! {

/// What a made move overwrote, kept so that it can be taken back.
#[derive(Clone, Copy)]
pub struct GameLineRecord {
    pub movim: Movim,
    pub castle_white: u8,
    pub castle_black: u8,
    pub ep_square: i32,
    pub fifty_move: i32,
    pub full_moves: i32,
}

impl GameLineRecord {
    pub fn new() -> (r: Self)
        ensures
            r.movim.move_int == 0,
            r.castle_white == 0,
            r.castle_black == 0,
            r.ep_square == 0,
            r.fifty_move == 0,
            r.full_moves == 0,
    {
        GameLineRecord {
            movim: Movim::new(),
            castle_white: 0,
            castle_black: 0,
            ep_square: 0,
            fifty_move: 0,
            full_moves: 0,
        }
    }
}

}
