use vstd::prelude::*;
use crate::board::{Board, pos_after, other_king_attacked, law_made_move_can_be_undone,
    lemma_attacks_congruent, lemma_pos_after_unique, lemma_make_move_pos, lemma_unmake_restores_state};
use crate::movim::Movim;
use crate::movegen::{gen_moves, lemma_gen_congruent};
use crate::globs::{MAX_GAME_LINE, MAX_PLY};

verus! {

/// `n` is the position that the legal move `m` leads to from `b`.
pub open spec fn legal_after(b: Board, m: Movim, n: Board) -> bool {
    pos_after(b, m, n) && !other_king_attacked(n)
}

/// The number of legal move sequences of length `depth` from `b` (the
/// leaves of the search tree; 1 at depth 0).
pub open spec fn perft(b: Board, depth: int) -> int
    decreases depth, 1int, 0int,
{
    if depth <= 0 { 1 } else { perft_sum(b, gen_moves(b), depth) }
}

/// The leaves below the legal moves among `s`.
pub open spec fn perft_sum(b: Board, s: Seq<Movim>, depth: int) -> int
    decreases depth, 0int, s.len(),
{
    if s.len() == 0 || depth <= 0 {
        0
    } else {
        perft_sum(b, s.drop_last(), depth) + if exists|n: Board| #[trigger] legal_after(b, s.last(), n) {
            perft(choose|n: Board| #[trigger] legal_after(b, s.last(), n), depth - 1)
        } else {
            0
        }
    }
}

proof fn lemma_perft_nonneg(b: Board, depth: int)
    ensures
        perft(b, depth) >= 0,
    decreases depth, 1int, 0int,
{
    if depth > 0 {
        lemma_perft_sum_nonneg(b, gen_moves(b), depth);
    }
}

proof fn lemma_perft_sum_nonneg(b: Board, s: Seq<Movim>, depth: int)
    ensures
        perft_sum(b, s, depth) >= 0,
    decreases depth, 0int, s.len(),
{
    if s.len() > 0 && depth > 0 {
        lemma_perft_sum_nonneg(b, s.drop_last(), depth);
        if exists|n: Board| #[trigger] legal_after(b, s.last(), n) {
            lemma_perft_nonneg(choose|n: Board| #[trigger] legal_after(b, s.last(), n), depth - 1);
        }
    }
}

/// Perft depends on the position only.
pub proof fn lemma_perft_congruent(a: Board, b: Board, depth: int)
    requires
        a.same_position(b),
    ensures
        perft(a, depth) == perft(b, depth),
    decreases depth, 1int, 0int,
{
    if depth > 0 {
        lemma_gen_congruent(a, b);
        lemma_perft_sum_congruent(a, b, gen_moves(a), depth);
    }
}

proof fn lemma_perft_sum_congruent(a: Board, b: Board, s: Seq<Movim>, depth: int)
    requires
        a.same_position(b),
    ensures
        perft_sum(a, s, depth) == perft_sum(b, s, depth),
    decreases depth, 0int, s.len(),
{
    if s.len() > 0 && depth > 0 {
        lemma_perft_sum_congruent(a, b, s.drop_last(), depth);
        let m = s.last();
        assert forall|n: Board| legal_after(a, m, n) == legal_after(b, m, n) by {}
        if exists|n: Board| #[trigger] legal_after(a, m, n) {
            let na = choose|n: Board| #[trigger] legal_after(a, m, n);
            let nb = choose|n: Board| #[trigger] legal_after(b, m, n);
            assert(legal_after(b, m, na));
            lemma_pos_after_unique(a, b, m, na, nb);
            lemma_perft_congruent(na, nb, depth - 1);
        }
    }
}

/// Taking one more move of a list into account.
proof fn lemma_perft_sum_step(b: Board, s: Seq<Movim>, i: int, depth: int)
    requires
        0 <= i < s.len(),
        depth > 0,
    ensures
        perft_sum(b, s.take(i + 1), depth) == perft_sum(b, s.take(i), depth) + if exists|n: Board| #[trigger] legal_after(b, s[i], n) {
            perft(choose|n: Board| #[trigger] legal_after(b, s[i], n), depth - 1)
        } else {
            0
        },
{
    assert(s.take(i + 1).drop_last() =~= s.take(i));
    assert(s.take(i + 1).last() == s[i]);
}

/// A prefix has no more leaves than the whole list.
proof fn lemma_perft_sum_prefix(b: Board, s: Seq<Movim>, i: int, depth: int)
    requires
        0 <= i <= s.len(),
    ensures
        perft_sum(b, s.take(i), depth) <= perft_sum(b, s, depth),
    decreases s.len() - i,
{
    if i < s.len() && depth > 0 {
        lemma_perft_sum_prefix(b, s, i + 1, depth);
        lemma_perft_sum_step(b, s, i, depth);
        if exists|n: Board| #[trigger] legal_after(b, s[i], n) {
            lemma_perft_nonneg(choose|n: Board| #[trigger] legal_after(b, s[i], n), depth - 1);
        }
        assert(s.take(s.len() as int) =~= s);
    } else {
        assert(s.take(s.len() as int) =~= s);
        if depth <= 0 {
        }
    }
}

/// Room for a search `depth` plies deep from ply `ply`.
pub open spec fn search_room(b: Board, depth: int, ply: int) -> bool {
    &&& b.wf()
    &&& b.end_of_search + depth <= MAX_GAME_LINE
    &&& b.fifty_move + depth <= i32::MAX
    &&& b.full_moves + depth <= i32::MAX
    &&& depth > 0 ==> ply + depth < MAX_PLY && b.move_buf_len[ply] <= b.move_buffer.len()
}

/// Counts the leaves of the legal search tree `depth` plies deep (perft),
/// generating the moves of each ply into the move buffer from the position
/// that `move_buf_len[ply]` gives.  The position is given back as it was.
pub fn mini_max(board: &mut Board, depth: i32, ply: usize) -> (nodes: u64)
    requires
        search_room(*old(board), depth as int, ply as int),
        perft(*old(board), depth as int) <= u64::MAX,
    ensures
        nodes == perft(*old(board), depth as int),
        final(board).wf(),
        final(board).same_state(*old(board)),
        final(board).move_buf_len.len() == old(board).move_buf_len.len(),
        forall|j: int| 0 <= j <= ply && j < old(board).move_buf_len.len() ==> #[trigger] final(board).move_buf_len[j]
            == old(board).move_buf_len[j],
        depth > 0 ==> final(board).move_buffer.len() >= old(board).move_buf_len[ply as int],
        depth > 0 ==> final(board).move_buffer@.take(old(board).move_buf_len[ply as int] as int)
            == old(board).move_buffer@.take(old(board).move_buf_len[ply as int] as int),
        depth <= 0 ==> *final(board) == *old(board),
    decreases depth,
{
    if depth <= 0 {
        return 1;
    }
    let ghost b0 = *board;
    let start = board.move_buf_len[ply];
    let end = board.movegen(start);
    let ghost gen = gen_moves(b0);
    let ghost buf = board.move_buffer@.take(end as int);
    let ghost bg = *board;
    board.move_buf_len.set(ply + 1, end);
    proof { Board::lemma_wf_frame(bg, *board); }
    let ghost mbl = board.move_buf_len@;
    let mut nodes: u64 = 0;
    let mut i = start;
    proof { lemma_perft_sum_prefix(b0, gen, 0, depth as int); }
    while i < end
        invariant
            search_room(*board, depth as int, ply as int),
            depth > 0,
            board.same_state(b0),
            b0.wf(),
            board.move_buffer.len() >= end,
            board.move_buffer@.take(end as int) == buf,
            buf == b0.move_buffer@.take(start as int) + gen,
            gen == gen_moves(b0),
            end == buf.len(),
            start <= i <= end,
            start <= b0.move_buffer.len(),
            start == b0.move_buf_len[ply as int],
            forall|j: int| start <= j < end ==> b0.move_ok(#[trigger] buf[j]),
            board.move_buf_len.len() == mbl.len(),
            forall|j: int| 0 <= j <= ply + 1 && j < mbl.len() ==> #[trigger] board.move_buf_len[j] == mbl[j],
            mbl == b0.move_buf_len@.update(ply + 1, end),
            mbl.len() == MAX_PLY,
            nodes == perft_sum(b0, gen.take(i - start), depth as int),
            perft(b0, depth as int) <= u64::MAX,
            perft(b0, depth as int) == perft_sum(b0, gen, depth as int),
        decreases end - i,
    {
        let mv = board.move_buffer[i];
        assert(board.move_buffer@.take(end as int)[i as int] == board.move_buffer@[i as int]);
        assert(buf[i as int] == gen[i - start]);
        let ghost bi = *board;
        board.make_move(mv);
        let ghost bm = *board;
        let attacked = board.is_other_king_attacked();
        proof {
            law_made_move_can_be_undone(bi, mv, bm);
            lemma_make_move_pos(bi, mv, bm);
            assert(pos_after(b0, mv, bm));
            assert forall|n: Board| legal_after(b0, mv, n) implies n.same_position(bm) by {
                lemma_pos_after_unique(b0, b0, mv, n, bm);
            }
            lemma_perft_sum_step(b0, gen, i - start, depth as int);
            lemma_perft_sum_prefix(b0, gen, i - start + 1, depth as int);
            lemma_perft_sum_nonneg(b0, gen.take(i - start), depth as int);
        }
        if !attacked {
            proof {
                assert(legal_after(b0, mv, bm));
                let c = choose|n: Board| #[trigger] legal_after(b0, mv, n);
                lemma_perft_congruent(c, bm, depth as int - 1);
                lemma_perft_nonneg(bm, depth as int - 1);
            }
            let sub = mini_max(board, depth - 1, ply + 1);
            nodes = nodes + sub;
        } else {
            proof {
                assert forall|n: Board| !legal_after(b0, mv, n) by {
                    if legal_after(b0, mv, n) {
                        lemma_pos_after_unique(b0, b0, mv, n, bm);
                        lemma_attacks_congruent(n, bm);
                    }
                }
            }
        }
        let ghost b2 = *board;
        board.unmake_move(mv);
        proof {
            lemma_unmake_restores_state(bi, mv, bm, b2, *board);
        }
        i = i + 1;
    }
    proof {
        assert(gen.take(end - start) =~= gen);
    }
    nodes
}

}
