use vstd::prelude::*;
use crate::board::Board;
use crate::tables::AttackTables;
use crate::getbook::{PolyglotEntry, book_uci, get_uci_move};
use crate::strutil::{chars_of, string_from_chars};
use crate::toolbarengine::{uci_play, play_uci};
use crate::wchess::new_board;

verus! {

// The moves a book holds for a position, as they are shown: by weight,
// heaviest first, each in SAN.

/// The first place from `i` on whose entry weighs less than `w`.
pub open spec fn first_below(s: Seq<PolyglotEntry>, w: u16, i: int) -> int
    decreases s.len() - i,
{
    if i < 0 || i >= s.len() {
        s.len() as int
    } else if s[i].weight < w {
        i
    } else {
        first_below(s, w, i + 1)
    }
}

/// The entries `s`, heaviest first, with `e` put after all that weigh as
/// much as it or more.
pub open spec fn insert_desc(s: Seq<PolyglotEntry>, e: PolyglotEntry) -> Seq<PolyglotEntry> {
    let p = first_below(s, e.weight, 0);
    s.take(p).push(e) + s.skip(p)
}

/// The entries by weight, heaviest first; entries of the same weight keep
/// their order.
pub open spec fn sort_desc(s: Seq<PolyglotEntry>) -> Seq<PolyglotEntry>
    decreases s.len(),
{
    if s.len() == 0 {
        seq![]
    } else {
        insert_desc(sort_desc(s.drop_last()), s.last())
    }
}

/// The SAN of a move played by `uci_play`.
pub open spec fn san_played(r: Option<(Seq<char>, Seq<char>, bool)>) -> Seq<char> {
    match r {
        Some((_f, san, _ok)) => san,
        None => seq![],
    }
}

/// `shown` holds, for each entry heaviest first, its SAN in the position
/// of `fen` (which can be set up) and its weight.
pub open spec fn book_shown(moves: Seq<PolyglotEntry>, fen: Seq<char>, t: AttackTables, shown: Seq<(Seq<char>, u16)>) -> bool {
    &&& shown.len() == moves.len()
    &&& forall|i: int| 0 <= i < shown.len() ==> #[trigger] entry_shown(moves, fen, t, shown, i)
}

/// The `i`-th line shown is the `i`-th entry, heaviest first, with its SAN.
pub open spec fn entry_shown(moves: Seq<PolyglotEntry>, fen: Seq<char>, t: AttackTables, shown: Seq<(Seq<char>, u16)>, i: int) -> bool {
    &&& uci_play(fen, book_uci(sort_desc(moves)[i].mv), t) is Some
    &&& shown[i].0 == san_played(uci_play(fen, book_uci(sort_desc(moves)[i].mv), t))
    &&& shown[i].1 == sort_desc(moves)[i].weight
}

/// The total weight of the entries.
pub open spec fn weight_sum(s: Seq<PolyglotEntry>) -> int
    decreases s.len(),
{
    if s.len() == 0 {
        0
    } else {
        weight_sum(s.drop_last()) + s.last().weight
    }
}

proof fn lemma_first_below(s: Seq<PolyglotEntry>, w: u16, i: int)
    requires
        0 <= i <= s.len(),
    ensures
        i <= first_below(s, w, i) <= s.len(),
    decreases s.len() - i,
{
    if i < s.len() && s[i].weight >= w {
        lemma_first_below(s, w, i + 1);
    }
}

/// Puts `e` into the entries `v`, heaviest first (see `insert_desc`).
fn insert_entry(v: &mut Vec<PolyglotEntry>, e: PolyglotEntry)
    ensures
        final(v)@ == insert_desc(old(v)@, e),
{
    let mut p: usize = 0;
    proof { lemma_first_below(v@, e.weight, 0); }
    while p < v.len() && v[p].weight >= e.weight
        invariant
            p <= v.len(),
            first_below(v@, e.weight, p as int) == first_below(v@, e.weight, 0),
        decreases v.len() - p,
    {
        p = p + 1;
    }
    let ghost s = v@;
    v.insert(p, e);
    assert(v@ =~= s.take(p as int).push(e) + s.skip(p as int));
}

/// The book moves `moves` of the position of the FEN `fen`, as shown:
/// heaviest first (see `sort_desc`), each with its SAN in that position
/// (see `uci_play`; empty for a move that cannot be played) and its
/// weight, and the total weight.  None when the FEN cannot be read.
pub fn init_search(moves: Vec<PolyglotEntry>, fen: &str) -> (r: Option<(Vec<(String, u16)>, u16)>)
    requires
        weight_sum(moves@) <= u16::MAX,
        forall|i: int| 0 <= i < moves.len() ==> (#[trigger] moves@[i]).mv.source.on_board() && moves@[i].mv.dest.on_board(),
    ensures
        exists|t: AttackTables| #[trigger] t.wf() && match r {
            None => exists|i: int| 0 <= i < moves.len() && #[trigger] uci_play(fen@, book_uci(sort_desc(moves@)[i].mv), t) is None,
            Some((shown, total)) => total == weight_sum(moves@) && book_shown(moves@, fen@, t, shown@.map_values(
                |x: (String, u16)| (x.0@, x.1))),
        },
{
    let mut b = new_board();
    let ghost t = b.tables;
    assert(t.wf());
    let mut sorted: Vec<PolyglotEntry> = Vec::new();
    let mut total: u16 = 0;
    let mut i: usize = 0;
    while i < moves.len()
        invariant
            i <= moves.len(),
            sorted@ == sort_desc(moves@.take(i as int)),
            total == weight_sum(moves@.take(i as int)),
            weight_sum(moves@) <= u16::MAX,
        decreases moves.len() - i,
    {
        assert(moves@.take(i as int + 1).drop_last() =~= moves@.take(i as int));
        proof { lemma_sum_prefix(moves@, i as int + 1); }
        insert_entry(&mut sorted, moves[i]);
        total = total + moves[i].weight;
        i = i + 1;
    }
    assert(moves@.take(moves.len() as int) =~= moves@);
    proof { lemma_sort_keeps(moves@); }
    let fv = chars_of(fen);
    let mut shown: Vec<(String, u16)> = Vec::new();
    let mut k: usize = 0;
    while k < sorted.len()
        invariant
            k <= sorted.len(),
            sorted@ == sort_desc(moves@),
            sorted.len() == moves.len(),
            forall|j: int| 0 <= j < sorted.len() ==> (#[trigger] sorted@[j]).mv.source.on_board() && sorted@[j].mv.dest.on_board(),
            fv@ == fen@,
            b.wf(),
            b.tables == t,
            t.wf(),
            total == weight_sum(moves@),
            shown.len() == k,
            forall|j: int| 0 <= j < k ==> {
                &&& uci_play(fen@, book_uci(sorted@[j].mv), t) is Some
                &&& (#[trigger] shown@[j]).0@ == san_played(uci_play(fen@, book_uci(sorted@[j].mv), t))
                &&& shown@[j].1 == sorted@[j].weight
            },
        decreases sorted.len() - k,
    {
        let e = sorted[k];
        let u = get_uci_move(e.mv);
        let uv = chars_of(u.as_str());
        let ghost b0 = b;
        b.end_of_search = 0;
        proof { Board::lemma_wf_frame(b0, b); }
        match play_uci(&mut b, &fv, &uv, Ghost(t)) {
            None => {
                assert(uci_play(fen@, book_uci(sort_desc(moves@)[k as int].mv), t) is None);
                assert(t.wf() && 0 <= k < moves.len());
                return None;
            },
            Some((_f2, san, _ok)) => {
                shown.push((string_from_chars(&san), e.weight));
            },
        }
        k = k + 1;
    }
    assert(total == weight_sum(moves@));
    assert(shown.len() == moves.len());
    assert(t.wf());
    let ghost sv = shown@.map_values(|x: (String, u16)| (x.0@, x.1));
    assert forall|i: int| 0 <= i < sv.len() implies #[trigger] entry_shown(moves@, fen@, t, sv, i) by {
        assert(sorted@[i] == sort_desc(moves@)[i]);
        assert(shown@[i].1 == sorted@[i].weight);
        assert(sv[i] == (shown@[i].0@, shown@[i].1));
    }
    assert(book_shown(moves@, fen@, t, sv));
    Some((shown, total))
}

proof fn lemma_sum_prefix(s: Seq<PolyglotEntry>, i: int)
    requires
        0 <= i <= s.len(),
    ensures
        weight_sum(s.take(i)) <= weight_sum(s),
    decreases s.len() - i,
{
    if i < s.len() {
        assert(s.drop_last().take(i) =~= s.take(i));
        lemma_sum_prefix(s.drop_last(), i);
    } else {
        assert(s.take(i) =~= s);
    }
}

/// Sorting keeps every entry, so each sorted entry is one of the entries.
proof fn lemma_sort_keeps(s: Seq<PolyglotEntry>)
    ensures
        sort_desc(s).len() == s.len(),
        forall|j: int| 0 <= j < s.len() ==> exists|i: int| 0 <= i < s.len() && #[trigger] sort_desc(s)[j] == s[i],
    decreases s.len(),
{
    if s.len() > 0 {
        let r = sort_desc(s.drop_last());
        lemma_sort_keeps(s.drop_last());
        lemma_first_below(r, s.last().weight, 0);
        let p = first_below(r, s.last().weight, 0);
        let n = insert_desc(r, s.last());
        assert forall|j: int| 0 <= j < s.len() implies exists|i: int| 0 <= i < s.len() && #[trigger] n[j] == s[i] by {
            if j < p {
                assert(n[j] == r[j]);
                let i = choose|i: int| 0 <= i < s.len() - 1 && #[trigger] r[j] == s.drop_last()[i];
                assert(s[i] == s.drop_last()[i]);
            } else if j == p {
                assert(n[j] == s[s.len() - 1]);
            } else {
                assert(n[j] == r[j - 1]);
                let i = choose|i: int| 0 <= i < s.len() - 1 && #[trigger] r[j - 1] == s.drop_last()[i];
                assert(s[i] == s.drop_last()[i]);
            }
        }
    }
}

proof fn lemma_first_below_props(s: Seq<PolyglotEntry>, w: u16, i: int)
    requires
        0 <= i <= s.len(),
    ensures
        forall|j: int| i <= j < first_below(s, w, i) ==> #[trigger] s[j].weight >= w,
        first_below(s, w, i) < s.len() ==> s[first_below(s, w, i)].weight < w,
        i <= first_below(s, w, i) <= s.len(),
    decreases s.len() - i,
{
    if i < s.len() && s[i].weight >= w {
        lemma_first_below_props(s, w, i + 1);
    }
}

/// The entries heaviest first, as a sequence.
pub open spec fn heaviest_first(s: Seq<PolyglotEntry>) -> bool {
    forall|i: int, j: int| 0 <= i < j < s.len() ==> #[trigger] s[i].weight >= #[trigger] s[j].weight
}

/// The book moves are listed heaviest first, all of them and only them:
/// the sorted entries come in order of weight, as many as there were, each
/// one of the entries given.
pub proof fn law_book_heaviest_first(s: Seq<PolyglotEntry>)
    ensures
        heaviest_first(sort_desc(s)),
        sort_desc(s).len() == s.len(),
        forall|j: int| 0 <= j < s.len() ==> exists|i: int| 0 <= i < s.len() && #[trigger] sort_desc(s)[j] == s[i],
    decreases s.len(),
{
    lemma_sort_keeps(s);
    if s.len() > 0 {
        let r = sort_desc(s.drop_last());
        law_book_heaviest_first(s.drop_last());
        let e = s.last();
        let w = e.weight;
        lemma_first_below_props(r, w, 0);
        let p = first_below(r, w, 0);
        let n = insert_desc(r, e);
        assert(n.len() == r.len() + 1);
        assert forall|i: int, j: int| 0 <= i < j < n.len() implies #[trigger] n[i].weight >= #[trigger] n[j].weight by {
            let wi = if i < p { r[i].weight } else if i == p { w } else { r[i - 1].weight };
            let wj = if j < p { r[j].weight } else if j == p { w } else { r[j - 1].weight };
            assert(n[i].weight == wi);
            assert(n[j].weight == wj);
            if i < p && j > p {
                assert(r[i].weight >= r[j - 1].weight);
            } else if i == p && j > p {
                assert(r[p].weight < w);
                if j - 1 > p {
                    assert(r[p].weight >= r[j - 1].weight);
                }
            } else if i < p && j == p {
            } else if i < p && j < p {
                assert(r[i].weight >= r[j].weight);
            } else if i > p {
                assert(r[i - 1].weight >= r[j - 1].weight);
            }
        }
    }
}

}
