use vstd::prelude::*;

pub mod globs;
pub mod movim;
pub mod gameline;
pub mod board;
pub mod tables;
pub mod bitops;
pub mod strutil;
pub mod movegen;
pub mod legalmoves;
pub mod displaymove;
pub mod sanparse;
pub mod sanmove;
pub mod fen;
pub mod wchess;
pub mod perft;
pub mod getbook;
pub mod pgnglobs;
pub mod internalxboard;
pub mod levels;
pub mod pgntext;
pub mod pgnsearch;
pub mod pgnread;
pub mod pgnwrite;
pub mod xboard;
pub mod fensearch;
pub mod toolbarengine;
pub mod bookreader;
pub mod nagcomments;
pub mod buttonsboard;
pub mod fenlaw;

verus! {
}
