use vstd::prelude::*;
use crate::pgnglobs::{ListNodes, Node, NodeModel, GameInfo};
use crate::levels::{next_mainline, mainline_ok, child_indx, absolute_mainline, ends_with_number, last_number,
    get_next_mainline_indx, get_child_indx, is_absolute_mainline, mainline_ok_exec};
use crate::sanmove::is_ascii_text;
use crate::fen::parse_i32;
use crate::pgntext::pieces;
use crate::strutil::{chars_of, string_from_chars, int_chars, push_int, push_all};

verus! {

// Writing the move tree back as PGN: the nodes in the order of the text
// (each move, the next move of its line, then the variations beside it),
// each with its move number where one is due, comments, NAG and the
// parentheses of its variation.

/// Every index of the tree is ASCII text.
pub open spec fn ascii_keys(m: Map<Seq<char>, NodeModel>) -> bool {
    forall|k: Seq<char>| #[trigger] m.contains_key(k) ==> is_ascii_text(k)
}

/// The variation `i` beside the node `indx`.
pub open spec fn variation_index(indx: Seq<char>, i: int) -> Seq<char> {
    indx + int_chars(i) + seq!['n']
}

/// The nodes in the order of the text, from `indx` on, `seen` holding the
/// nodes already listed on the way there; `fuel` bounds the depth.  None
/// where an index cannot be counted on, or the depth runs out.
pub open spec fn plain_order(m: Map<Seq<char>, NodeModel>, indx: Seq<char>, seen: Seq<Seq<char>>, fuel: nat) -> Option<
    Seq<Seq<char>>,
>
    decreases fuel, i32::MAX + 2,
{
    if fuel == 0 || !mainline_ok(indx) {
        None
    } else {
        let out1 = if seen.contains(indx) { seq![] } else { seq![indx] };
        let seen1 = if seen.contains(indx) { seen } else { seen.push(indx) };
        let ml = next_mainline(indx);
        let out2 = if m.contains_key(ml) && !seen1.contains(ml) { out1.push(ml) } else { out1 };
        let seen2 = if m.contains_key(ml) && !seen1.contains(ml) { seen1.push(ml) } else { seen1 };
        match variations_order(m, indx, seen2, 1, fuel) {
            None => None,
            Some(v) => if m.contains_key(ml) {
                match plain_order(m, ml, seen2, (fuel - 1) as nat) {
                    None => None,
                    Some(w) => Some(out2 + v + w),
                }
            } else {
                Some(out2 + v)
            },
        }
    }
}

/// The variations beside `indx` from the variation `i` on, in the order of
/// the text.
pub open spec fn variations_order(m: Map<Seq<char>, NodeModel>, indx: Seq<char>, seen: Seq<Seq<char>>, i: int,
    fuel: nat) -> Option<Seq<Seq<char>>>
    decreases fuel, i32::MAX + 1 - i,
{
    if fuel == 0 || i < 1 || i > i32::MAX {
        None
    } else if !m.contains_key(variation_index(indx, i)) {
        Some(seq![])
    } else {
        match plain_order(m, variation_index(indx, i), seen, (fuel - 1) as nat) {
            None => None,
            Some(a) => match variations_order(m, indx, seen, i + 1, fuel) {
                None => None,
                Some(b) => Some(a + b),
            },
        }
    }
}


/// The texts of a list of strings.
pub open spec fn texts(v: Seq<String>) -> Seq<Seq<char>> {
    v.map_values(|s: String| s@)
}

fn contains_text(v: &Vec<String>, s: &String) -> (r: bool)
    ensures
        r == texts(v@).contains(s@),
{
    let mut i: usize = 0;
    while i < v.len()
        invariant
            i <= v.len(),
            forall|j: int| 0 <= j < i ==> v@[j]@ != s@,
        decreases v.len() - i,
    {
        if v[i] == *s {
            assert(texts(v@)[i as int] == s@);
            return true;
        }
        i = i + 1;
    }
    proof {
        if texts(v@).contains(s@) {
            let j = choose|j: int| 0 <= j < texts(v@).len() && texts(v@)[j] == s@;
            assert(v@[j]@ == s@);
        }
    }
    false
}

fn copy_texts(v: &Vec<String>) -> (r: Vec<String>)
    ensures
        texts(r@) == texts(v@),
{
    let mut r: Vec<String> = Vec::new();
    let mut i: usize = 0;
    while i < v.len()
        invariant
            i <= v.len(),
            r.len() == i,
            texts(r@) == texts(v@.take(i as int)),
        decreases v.len() - i,
    {
        let c = v[i].clone();
        assert(c == v@[i as int]);
        let ghost r0 = r@;
        r.push(c);
        assert forall|k: int| 0 <= k < r@.len() implies #[trigger] texts(r@)[k] == texts(v@.take(i as int + 1))[k] by {
            if k < i {
                assert(r@[k] == r0[k]);
                assert(texts(r0)[k] == texts(v@.take(i as int))[k]);
            }
        }
        assert(texts(r@) =~= texts(v@.take(i as int + 1)));
        i = i + 1;
    }
    assert(v@.take(v.len() as int) == v@);
    r
}

fn push_text(v: &mut Vec<String>, s: &String)
    ensures
        texts(final(v)@) == texts(old(v)@).push(s@),
{
    v.push(s.clone());
    assert(texts(v@) =~= texts(old(v)@).push(s@));
}

/// The index of the variation `i` beside `indx`.
fn variation_index_exec(indx: &String, i: i32) -> (r: String)
    ensures
        r@ == variation_index(indx@, i as int),
{
    let mut v = chars_of(indx.as_str());
    push_int(&mut v, i);
    v.push('n');
    string_from_chars(&v)
}

/// Appends the nodes in the order of the text, from `indx` on (see
/// `plain_order`); false where that gives None.
fn parse_node_plain(l: &ListNodes, indx: &String, seen: &Vec<String>, out: &mut Vec<String>, fuel: usize) -> (ok: bool)
    requires
        l.wf(),
    ensures
        ok == plain_order(l.map(), indx@, texts(seen@), fuel as nat) is Some,
        ok ==> texts(final(out)@) == texts(old(out)@) + plain_order(l.map(), indx@, texts(seen@), fuel as nat)->0,
    decreases fuel,
{
    let ghost m = l.map();
    if fuel == 0 || !mainline_ok_exec(indx) {
        return false;
    }
    let mut seen2 = copy_texts(seen);
    let ghost out0 = texts(out@);
    if !contains_text(&seen2, indx) {
        push_text(out, indx);
        push_text(&mut seen2, indx);
    }
    let ml = get_next_mainline_indx(indx.clone());
    let ml_exists = l.node_at(&ml).is_some();
    if ml_exists && !contains_text(&seen2, &ml) {
        push_text(out, &ml);
        push_text(&mut seen2, &ml);
    }
    let ghost out2 = texts(out@);
    let ghost s2 = texts(seen2@);
    assert(out2 == out0 + (if texts(seen@).contains(indx@) { seq![] } else { seq![indx@] }) + (if m.contains_key(
        next_mainline(indx@)) && !(if texts(seen@).contains(indx@) { texts(seen@) } else { texts(seen@).push(indx@) }).contains(
        next_mainline(indx@)) { seq![next_mainline(indx@)] } else { seq![] }));
    proof {
        let sp = texts(seen@);
        let seen1 = if sp.contains(indx@) { sp } else { sp.push(indx@) };
        let ml_s = next_mainline(indx@);
        let spec2 = if m.contains_key(ml_s) && !seen1.contains(ml_s) { seen1.push(ml_s) } else { seen1 };
        assert(s2 == spec2);
    }
    let ghost vres = variations_order(m, indx@, s2, 1, fuel as nat);
    assert(vres is None ==> plain_order(m, indx@, texts(seen@), fuel as nat) is None);
    let mut i: i32 = 1;
    loop
        invariant
            vres is None ==> plain_order(m, indx@, texts(seen@), fuel as nat) is None,
            1 <= i,
            fuel > 0,
            l.wf(),
            m == l.map(),
            texts(seen2@) == s2,
            vres == variations_order(m, indx@, s2, 1, fuel as nat),
            match variations_order(m, indx@, s2, i as int, fuel as nat) {
                None => vres is None,
                Some(rest) => vres is Some && vres->0 == texts(out@).subrange(out2.len() as int, texts(out@).len() as int)
                    + rest,
            },
            texts(out@).len() >= out2.len(),
            texts(out@).subrange(0, out2.len() as int) == out2,
        ensures
            vres == Some(texts(out@).subrange(out2.len() as int, texts(out@).len() as int)),
            texts(out@).len() >= out2.len(),
            texts(out@).subrange(0, out2.len() as int) == out2,
        decreases i32::MAX - i,
    {
        let child = variation_index_exec(indx, i);
        if l.node_at(&child).is_none() {
            proof {
                assert(variations_order(m, indx@, s2, i as int, fuel as nat) == Some(Seq::<Seq<char>>::empty()));
                assert(vres->0 =~= texts(out@).subrange(out2.len() as int, texts(out@).len() as int));
            }
            break;
        }
        let ghost before = texts(out@);
        if !parse_node_plain(l, &child, &seen2, out, fuel - 1) {
            assert(variations_order(m, indx@, s2, i as int, fuel as nat) is None);
            return false;
        }
        proof {
            let a = plain_order(m, child@, s2, (fuel - 1) as nat)->0;
            assert(texts(out@) == before + a);
            assert(texts(out@).subrange(out2.len() as int, texts(out@).len() as int) =~= before.subrange(
                out2.len() as int, before.len() as int) + a);
            assert(texts(out@).subrange(0, out2.len() as int) =~= before.subrange(0, out2.len() as int));
        }
        if i == i32::MAX {
            assert(variations_order(m, indx@, s2, i as int + 1, fuel as nat) is None);
            return false;
        }
        i = i + 1;
    }
    let ghost vtext = texts(out@);
    if ml_exists {
        if !parse_node_plain(l, &ml, &seen2, out, fuel - 1) {
            return false;
        }
        proof {
            assert(texts(out@) =~= out2 + vres->0 + plain_order(m, ml@, s2, (fuel - 1) as nat)->0) by {
                assert(vtext =~= out2 + vres->0);
            }
        }
    } else {
        assert(texts(out@) =~= out2 + vres->0);
    }
    true
}


/// The index can be read by `get_child_indx`.
pub open spec fn child_ok(s: Seq<char>) -> bool {
    is_ascii_text(s) && (ends_with_number(s, 'n') ==> last_number(s) <= i32::MAX)
}

/// Walks up the tree from `branch` while its depth is not `level - 1` (and
/// `level` is not 0): the variation number and the node reached.  None
/// when a node is missing, an index cannot be read, or `fuel` runs out.
pub open spec fn walk_up(m: Map<Seq<char>, NodeModel>, child: int, branch: Seq<char>, level: int, fuel: nat) -> Option<
    (int, Seq<char>),
>
    decreases fuel,
{
    if !m.contains_key(branch) || level - 1 < i32::MIN {
        None
    } else if m[branch].branch_level == level - 1 || level == 0 {
        Some((child, branch))
    } else if fuel == 0 || !child_ok(branch) || !m.contains_key(m[branch].parent) {
        None
    } else {
        walk_up(m, child_indx(branch), m[branch].parent, level, (fuel - 1) as nat)
    }
}

/// How many variations close after the last node of a variation, counting
/// `num` so far: up from the branch point while it ends the variation
/// before it, down to depth `indent`.
pub open spec fn closing(m: Map<Seq<char>, NodeModel>, child: int, branch: Seq<char>, num: int, level: int, indent: int,
    fuel: nat) -> Option<int>
    decreases level - indent,
{
    match walk_up(m, child, branch, level, fuel) {
        None => None,
        Some((c, b)) => if !mainline_ok(b) || !mainline_ok(next_mainline(b)) {
            None
        } else {
            let nn = next_mainline(next_mainline(b));
            if m.contains_key(nn) || absolute_mainline(b) {
                Some(num)
            } else if c + 1 > i32::MAX {
                None
            } else if (m[b].children.len() as i32) as int == c + 1 && level > indent {
                if num + 1 > i32::MAX { None } else { closing(m, c, b, num + 1, level - 1, indent, fuel) }
            } else {
                Some(num)
            }
        },
    }
}

proof fn lemma_closing_pos(m: Map<Seq<char>, NodeModel>, child: int, branch: Seq<char>, num: int, level: int,
    indent: int, fuel: nat)
    requires
        num >= 1,
    ensures
        closing(m, child, branch, num, level, indent, fuel) matches Some(k) ==> k >= 1,
    decreases level - indent,
{
    match walk_up(m, child, branch, level, fuel) {
        None => {},
        Some((c, b)) => {
            if mainline_ok(b) && mainline_ok(next_mainline(b)) {
                let nn = next_mainline(next_mainline(b));
                if !(m.contains_key(nn) || absolute_mainline(b)) && !(c + 1 > i32::MAX) && (m[b].children.len() as i32)
                    as int == c + 1 && level > indent && num + 1 <= i32::MAX {
                    lemma_closing_pos(m, c, b, num + 1, level - 1, indent, fuel);
                }
            }
        },
    }
}

/// How many parentheses close after the node `node` (none when it has a
/// continuation, or ends a main-line move with variations).
pub open spec fn closed_after(m: Map<Seq<char>, NodeModel>, node: Seq<char>, indent: int, fuel: nat) -> Option<int> {
    let n = m[node];
    if n.children.len() > 0 {
        Some(0)
    } else if !child_ok(node) || !m.contains_key(n.parent) {
        None
    } else if child_indx(node) == 0 && m[n.parent].children.len() > 1 {
        Some(0)
    } else {
        closing(m, child_indx(node), n.parent, 1, n.branch_level, indent, fuel)
    }
}


/// Walks up the tree (see `walk_up`).
fn walk_up_exec(l: &ListNodes, child: i32, branch: String, level: i32, fuel: usize) -> (r: Option<(i32, String)>)
    requires
        l.wf(),
    ensures
        match r {
            Some((c, b)) => walk_up(l.map(), child as int, branch@, level as int, fuel as nat) == Some((c as int, b@)),
            None => walk_up(l.map(), child as int, branch@, level as int, fuel as nat) == None::<(int, Seq<char>)>,
        },
{
    let ghost m = l.map();
    let ghost res = walk_up(m, child as int, branch@, level as int, fuel as nat);
    let ghost branch0 = branch@;
    let mut c = child;
    let mut b = branch.clone();
    let mut f = fuel;
    loop
        invariant
            l.wf(),
            m == l.map(),
            res == walk_up(m, child as int, branch0, level as int, fuel as nat),
            branch0 == branch@,
            walk_up(m, c as int, b@, level as int, f as nat) == res,
        decreases f,
    {
        let n = match l.node_at(&b) {
            Some(n) => n,
            None => {
                assert(!m.contains_key(b@));
                assert(walk_up(m, c as int, b@, level as int, f as nat) == None::<(int, Seq<char>)>);
                assert(res == None::<(int, Seq<char>)>);
                return None;
            },
        };
        if level == i32::MIN {
            return None;
        }
        if n.branch_level == level - 1 || level == 0 {
            assert(walk_up(m, c as int, b@, level as int, f as nat) == Some((c as int, b@)));
            return Some((c, b));
        }
        if f == 0 || !crate::levels::child_ok_exec(&b) {
            return None;
        }
        let parent = n.parent_indx.clone();
        if l.node_at(&parent).is_none() {
            return None;
        }
        c = get_child_indx(b);
        b = parent;
        f = f - 1;
    }
}

/// The node a walk ends at is in the tree.
proof fn lemma_walk_up_key(m: Map<Seq<char>, NodeModel>, child: int, branch: Seq<char>, level: int, fuel: nat)
    ensures
        walk_up(m, child, branch, level, fuel) matches Some((c, b)) ==> m.contains_key(b),
    decreases fuel,
{
    if m.contains_key(branch) && !(level - 1 < i32::MIN) && !(m[branch].branch_level == level - 1 || level == 0)
        && fuel > 0 {
        lemma_walk_up_key(m, child_indx(branch), m[branch].parent, level, (fuel - 1) as nat);
    }
}

/// How many variations close (see `closing`).
fn closing_exec(l: &ListNodes, child: i32, branch: String, num: i32, level: i32, indent: i32, fuel: usize) -> (r: Option<i32>)
    requires
        l.wf(),
        ascii_keys(l.map()),
    ensures
        match r {
            Some(k) => closing(l.map(), child as int, branch@, num as int, level as int, indent as int, fuel as nat)
                == Some(k as int),
            None => closing(l.map(), child as int, branch@, num as int, level as int, indent as int, fuel as nat) is None,
        },
{
    let ghost m = l.map();
    let ghost res = closing(m, child as int, branch@, num as int, level as int, indent as int, fuel as nat);
    let ghost branch0 = branch@;
    let mut c = child;
    let mut b = branch.clone();
    let mut k = num;
    let mut lv = level;
    loop
        invariant
            l.wf(),
            m == l.map(),
            res == closing(m, child as int, branch0, num as int, level as int, indent as int, fuel as nat),
            branch0 == branch@,
            ascii_keys(m),
            closing(m, c as int, b@, k as int, lv as int, indent as int, fuel as nat) == res,
        decreases lv - indent,
    {
        let (c2, b2) = match walk_up_exec(l, c, b, lv, fuel) {
            Some(p) => p,
            None => { return None; },
        };
        proof { lemma_walk_up_key(m, c as int, b@, lv as int, fuel as nat); }
        assert(m.contains_key(b2@));
        if !mainline_ok_exec(&b2) {
            return None;
        }
        let next1 = get_next_mainline_indx(b2.clone());
        if !mainline_ok_exec(&next1) {
            return None;
        }
        let nn = get_next_mainline_indx(next1);
        if l.node_at(&nn).is_some() || is_absolute_mainline(b2.clone()) {
            return Some(k);
        }
        if c2 == i32::MAX {
            return None;
        }
        let nb = match l.node_at(&b2) {
            Some(n) => {
                #[verifier::truncate]
                let x = n.children.len() as i32;
                x
            },
            None => { return None; },
        };
        if nb == c2 + 1 && lv > indent {
            if k == i32::MAX {
                return None;
            }
            k = k + 1;
            lv = lv - 1;
            c = c2;
            b = b2;
        } else {
            return Some(k);
        }
    }
}

/// How many parentheses close after a node (see `closed_after`).
fn closed_after_exec(l: &ListNodes, node: &String, indent: i32, fuel: usize) -> (r: Option<i32>)
    requires
        l.wf(),
        ascii_keys(l.map()),
        l.map().contains_key(node@),
    ensures
        match r {
            Some(k) => closed_after(l.map(), node@, indent as int, fuel as nat) == Some(k as int),
            None => closed_after(l.map(), node@, indent as int, fuel as nat) is None,
        },
{
    let n = match l.node_at(node) {
        Some(n) => n,
        None => { return None; },
    };
    if n.children.len() > 0 {
        return Some(0);
    }
    if !crate::levels::child_ok_exec(node) {
        return None;
    }
    let pn = match l.node_at(&n.parent_indx) {
        Some(p) => p,
        None => { return None; },
    };
    let c = get_child_indx(node.clone());
    if c == 0 && pn.children.len() > 1 {
        return Some(0);
    }
    closing_exec(l, c, n.parent_indx.clone(), 1, n.branch_level, indent, fuel)
}


/// Division by 2 as Rust computes it on integers (toward zero).
pub open spec fn half(x: int) -> int {
    if x >= 0 { x / 2 } else { -((-x) / 2) }
}

/// `k` closing parentheses.
pub open spec fn closers(k: int) -> Seq<char> {
    Seq::new(k as nat, |i: int| ')')
}

/// A comment in braces, with a space at each side.
pub open spec fn braced(c: Seq<char>) -> Seq<char> {
    seq![' ', '{'] + c + seq!['}', ' ']
}

/// The move number of a position in the text, from its FEN: whether black
/// is to move, and "n. " (black to move) or "n... "; None when the FEN has
/// no move number.
pub open spec fn move_desc(fen: Seq<char>) -> Option<(bool, Seq<char>)> {
    let parts = pieces(fen, ' ');
    if parts.len() < 6 || parse_i32(parts[5]) is None {
        None
    } else {
        let tmp = parse_i32(parts[5])->0 as int;
        let black = parts[1] == seq!['b'];
        if !black && tmp - 1 < i32::MIN {
            None
        } else if black {
            Some((true, int_chars(half(tmp)) + seq!['.', ' ']))
        } else {
            Some((false, int_chars(half(tmp - 1)) + seq!['.', '.', '.', ' ']))
        }
    }
}

/// What comes before the move of `node`: an opening parenthesis where a
/// variation starts, the comment before the move, and the move number
/// where one is due (after a comment, at the start of a variation or of
/// the line after one, before a black move, and on the first move).  None
/// when the node's grandparent is named but missing.
pub open spec fn node_head(m: Map<Seq<char>, NodeModel>, node: Seq<char>, black: bool, desc: Seq<char>) -> Option<
    Seq<char>,
> {
    let n = m[node];
    let pe = m.contains_key(n.parent);
    let g = if pe { m[n.parent].parent } else { seq![] };
    if pe && g.len() > 0 && !m.contains_key(g) {
        None
    } else {
        let opens = pe && m[n.parent].branch_level != n.branch_level;
        let after_var = pe && g.len() > 0 && m[g].branch_level == n.branch_level && m[g].children.len() > 1;
        let sc = n.start_comment.len() > 0;
        let display = (pe && m[n.parent].comment.len() > 0) || opens || after_var || sc || (node != seq!['1', 'z']
            && black);
        Some((if opens { seq!['('] } else { seq![] }) + (if sc { braced(n.start_comment) } else { seq![] }) + (
        if display || node == seq!['2', 'z'] { desc } else { seq![] }))
    }
}

/// The move of `node` with its NAG, and the comment after it.
pub open spec fn node_body(n: NodeModel, node: Seq<char>) -> Seq<char> {
    let spacing = if n.children.len() == 0 && !absolute_mainline(node) { seq![] } else { seq![' '] };
    let mv = if n.san.len() > 0 {
        n.san + (if n.nag.len() > 0 { seq![' '] + n.nag } else { seq![] }) + spacing
    } else {
        seq![]
    };
    mv + (if n.comment.len() > 0 { braced(n.comment) } else { seq![] })
}

/// The text of the node `node` in the PGN: its head, its move and comment,
/// and the parentheses that close after the last move of a variation.
/// None where the node cannot be written: it is missing, its FEN has no
/// move number, a node it names is missing, or an index cannot be read.
pub open spec fn node_text(m: Map<Seq<char>, NodeModel>, node: Seq<char>, fuel: nat) -> Option<Seq<char>> {
    if !m.contains_key(node) {
        None
    } else {
        let n = m[node];
        match move_desc(n.fen) {
            None => None,
            Some((black, desc)) => match node_head(m, node, black, desc) {
                None => None,
                Some(head) => if n.children.len() == 0 && n.branch_level != 0 {
                    match closed_after(m, node, 0, fuel) {
                        None => None,
                        Some(k) => Some(head + node_body(n, node) + closers(k) + seq![' ']),
                    }
                } else {
                    Some(head + node_body(n, node))
                },
            },
        }
    }
}

/// The texts of the nodes `order`, one after another.
pub open spec fn nodes_text(m: Map<Seq<char>, NodeModel>, order: Seq<Seq<char>>, fuel: nat) -> Option<Seq<char>>
    decreases order.len(),
{
    if order.len() == 0 {
        Some(seq![])
    } else {
        match nodes_text(m, order.drop_last(), fuel) {
            None => None,
            Some(a) => match node_text(m, order.last(), fuel) {
                None => None,
                Some(b) => Some(a + b),
            },
        }
    }
}

/// The moves of the tree as PGN text, from the root on.
pub open spec fn tree_text(m: Map<Seq<char>, NodeModel>, fuel: nat) -> Option<Seq<char>> {
    match plain_order(m, seq!['1', 'z'], seq![], fuel) {
        None => None,
        Some(order) => nodes_text(m, order, fuel),
    }
}

fn push_str(v: &mut Vec<char>, s: &str)
    ensures
        final(v)@ == old(v)@ + s@,
{
    let c = chars_of(s);
    push_all(v, &c);
}

fn push_string(v: &mut Vec<char>, s: &String)
    ensures
        final(v)@ == old(v)@ + s@,
{
    let c = chars_of(s.as_str());
    push_all(v, &c);
}

fn push_braced(v: &mut Vec<char>, s: &String)
    ensures
        final(v)@ == old(v)@ + braced(s@),
{
    v.push(' ');
    v.push('{');
    push_string(v, s);
    v.push('}');
    v.push(' ');
    assert(v@ =~= old(v)@ + braced(s@));
}

fn move_desc_exec(fen: &String) -> (r: Option<(bool, Vec<char>)>)
    ensures
        match r {
            Some((b, d)) => move_desc(fen@) == Some((b, d@)),
            None => move_desc(fen@) is None,
        },
{
    let text = chars_of(fen.as_str());
    let parts = pieces_exec(&text);
    if parts.len() < 6 {
        return None;
    }
    let tmp = match crate::fen::parse_i32_exec(&parts[5]) {
        Some(x) => x,
        None => { return None; },
    };
    let black = parts[1].len() == 1 && parts[1][0] == 'b';
    assert(black == (pieces(fen@, ' ')[1] == seq!['b'])) by {
        if pieces(fen@, ' ')[1] == seq!['b'] { assert(parts[1]@[0] == 'b'); }
        if black { assert(parts[1]@ =~= seq!['b']); }
    }
    if !black && tmp == i32::MIN {
        return None;
    }
    let x: i64 = if black { tmp as i64 } else { tmp as i64 - 1 };
    let h: i64 = if x >= 0 { x / 2 } else { -((-x) / 2) };
    assert(h == half(x as int));
    let mut desc: Vec<char> = Vec::new();
    push_int(&mut desc, h as i32);
    if black {
        desc.push('.');
        desc.push(' ');
    } else {
        desc.push('.');
        desc.push('.');
        desc.push('.');
        desc.push(' ');
    }
    Some((black, desc))
}

fn node_head_exec(l: &ListNodes, node: &String, black: bool, desc: &Vec<char>) -> (r: Option<Vec<char>>)
    requires
        l.wf(),
        l.map().contains_key(node@),
    ensures
        match r {
            Some(h) => node_head(l.map(), node@, black, desc@) == Some(h@),
            None => node_head(l.map(), node@, black, desc@) is None,
        },
{
    let n = match l.node_at(node) {
        Some(n) => n,
        None => { return None; },
    };
    let pn = l.node_at(&n.parent_indx);
    let g: Option<&Node> = match pn {
        Some(p) => {
            if p.parent_indx.as_str().is_empty() {
                None
            } else {
                match l.node_at(&p.parent_indx) {
                    Some(gn) => Some(gn),
                    None => { return None; },
                }
            }
        },
        None => None,
    };
    let opens = match pn { Some(p) => p.branch_level != n.branch_level, None => false };
    let after_var = match g { Some(gn) => gn.branch_level == n.branch_level && gn.children.len() > 1, None => false };
    let parent_comment = match pn { Some(p) => !p.comment.as_str().is_empty(), None => false };
    let sc = !n.start_comment.as_str().is_empty();
    let root = crate::levels::root_node();
    let mut second: Vec<char> = Vec::new();
    second.push('2');
    second.push('z');
    assert(second@ =~= seq!['2', 'z']);
    let second_s = string_from_chars(&second);
    let display = parent_comment || opens || after_var || sc || (*node != root && black);
    let mut rv: Vec<char> = Vec::new();
    if opens {
        rv.push('(');
    }
    if sc {
        push_braced(&mut rv, &n.start_comment);
    }
    if display || *node == second_s {
        push_all(&mut rv, desc);
    }
    assert(rv@ =~= node_head(l.map(), node@, black, desc@)->0);
    Some(rv)
}

fn node_body_exec(n: &Node, node: &String) -> (r: Vec<char>)
    requires
        is_ascii_text(node@),
    ensures
        r@ == node_body(n.model(), node@),
{
    let mut rv: Vec<char> = Vec::new();
    if !n.san.as_str().is_empty() {
        push_string(&mut rv, &n.san);
        if !n.nag.as_str().is_empty() {
            rv.push(' ');
            push_string(&mut rv, &n.nag);
        }
        if !(n.children.len() == 0 && !is_absolute_mainline(node.clone())) {
            rv.push(' ');
        }
    }
    if !n.comment.as_str().is_empty() {
        push_braced(&mut rv, &n.comment);
    }
    assert(rv@ =~= node_body(n.model(), node@));
    rv
}

/// The text of a node in the PGN (see `node_text`), the depth bounded by
/// the number of nodes.
pub fn nodes_to_pgn(nodeslist: &mut ListNodes, node_indx: String) -> (r: Option<String>)
    requires
        old(nodeslist).wf(),
        ascii_keys(old(nodeslist).map()),
    ensures
        final(nodeslist).nodes@ == old(nodeslist).nodes@,
        match r {
            Some(s) => node_text(old(nodeslist).map(), node_indx@, old(nodeslist).nodes.len() as nat) == Some(s@),
            None => node_text(old(nodeslist).map(), node_indx@, old(nodeslist).nodes.len() as nat) is None,
        },
{
    node_text_exec(nodeslist, &node_indx)
}

fn node_text_exec(l: &ListNodes, node_indx: &String) -> (r: Option<String>)
    requires
        l.wf(),
        ascii_keys(l.map()),
    ensures
        match r {
            Some(s) => node_text(l.map(), node_indx@, l.nodes.len() as nat) == Some(s@),
            None => node_text(l.map(), node_indx@, l.nodes.len() as nat) is None,
        },
{
    let ghost m = l.map();
    let n = match l.node_at(node_indx) {
        Some(n) => n,
        None => { return None; },
    };
    let (black, desc) = match move_desc_exec(&n.fen) {
        Some(p) => p,
        None => { return None; },
    };
    let mut rv = match node_head_exec(l, node_indx, black, &desc) {
        Some(h) => h,
        None => { return None; },
    };
    let body = node_body_exec(n, node_indx);
    push_all(&mut rv, &body);
    if n.children.len() == 0 && n.branch_level != 0 {
        match closed_after_exec(l, node_indx, 0, l.nodes.len()) {
            None => { return None; },
            Some(k) => {
                proof {
                    let nm = m[node_indx@];
                    if !(nm.children.len() > 0) && child_ok(node_indx@) && m.contains_key(nm.parent) && !(child_indx(
                        node_indx@) == 0 && m[nm.parent].children.len() > 1) {
                        lemma_closing_pos(m, child_indx(node_indx@), nm.parent, 1, nm.branch_level, 0, l.nodes.len() as nat);
                    }
                }
                assert(k >= 0);
                let ghost before = rv@;
                let mut j: i32 = 0;
                while j < k
                    invariant
                        0 <= j <= k,
                        rv@ == before + closers(j as int),
                    decreases k - j,
                {
                    rv.push(')');
                    assert(rv@ =~= before + closers(j + 1));
                    j = j + 1;
                }
                rv.push(' ');
            },
        }
    }
    Some(string_from_chars(&rv))
}

/// The pieces of a text between spaces.
fn pieces_exec(s: &Vec<char>) -> (r: Vec<Vec<char>>)
    ensures
        r.len() == pieces(s@, ' ').len(),
        forall|j: int| 0 <= j < r.len() ==> (#[trigger] r[j])@ == pieces(s@, ' ')[j],
{
    crate::pgntext::split_chars(s, ' ')
}


/// The moves of the tree as PGN text (see `tree_text`), the depth bounded
/// by the number of nodes.
pub fn traverse_nodes_plain(nodes: &mut ListNodes) -> (r: Option<String>)
    requires
        old(nodes).wf(),
        ascii_keys(old(nodes).map()),
    ensures
        final(nodes).nodes@ == old(nodes).nodes@,
        match r {
            Some(s) => tree_text(old(nodes).map(), old(nodes).nodes.len() as nat) == Some(s@),
            None => tree_text(old(nodes).map(), old(nodes).nodes.len() as nat) is None,
        },
{
    let v = tree_text_exec(nodes);
    match v {
        Some(c) => Some(string_from_chars(&c)),
        None => None,
    }
}

fn tree_text_exec(l: &ListNodes) -> (r: Option<Vec<char>>)
    requires
        l.wf(),
        ascii_keys(l.map()),
    ensures
        match r {
            Some(s) => tree_text(l.map(), l.nodes.len() as nat) == Some(s@),
            None => tree_text(l.map(), l.nodes.len() as nat) is None,
        },
{
    let ghost m = l.map();
    let ghost fuel = l.nodes.len() as nat;
    let mut order: Vec<String> = Vec::new();
    let seen: Vec<String> = Vec::new();
    let root = crate::levels::root_node();
    assert(texts(seen@) =~= Seq::<Seq<char>>::empty());
    if !parse_node_plain(l, &root, &seen, &mut order, l.nodes.len()) {
        return None;
    }
    assert(texts(order@) =~= plain_order(m, seq!['1', 'z'], seq![], fuel)->0);
    let ghost ord = texts(order@);
    let mut acc: Vec<char> = Vec::new();
    let mut i: usize = 0;
    while i < order.len()
        invariant
            i <= order.len(),
            l.wf(),
            ascii_keys(l.map()),
            m == l.map(),
            fuel == l.nodes.len(),
            ord == texts(order@),
            plain_order(m, seq!['1', 'z'], seq![], fuel) == Some(ord),
            nodes_text(m, ord.take(i as int), fuel) == Some(acc@),
        decreases order.len() - i,
    {
        assert(ord.take(i as int + 1).drop_last() =~= ord.take(i as int));
        assert(ord.take(i as int + 1).last() == order@[i as int]@);
        match node_text_exec(l, &order[i]) {
            None => {
                assert(nodes_text(m, ord.take(i as int + 1), fuel) is None);
                proof { lemma_nodes_text_none(m, ord, i as int + 1, fuel); }
                return None;
            },
            Some(s) => {
                let c = chars_of(s.as_str());
                push_all(&mut acc, &c);
            },
        }
        i = i + 1;
    }
    assert(ord.take(i as int) =~= ord);
    Some(acc)
}

/// Once the text of a prefix of the nodes is None, so is the whole.
proof fn lemma_nodes_text_none(m: Map<Seq<char>, NodeModel>, ord: Seq<Seq<char>>, k: int, fuel: nat)
    requires
        0 <= k <= ord.len(),
        nodes_text(m, ord.take(k), fuel) is None,
    ensures
        nodes_text(m, ord, fuel) is None,
    decreases ord.len() - k,
{
    if k < ord.len() {
        assert(ord.take(k + 1).drop_last() =~= ord.take(k));
        lemma_nodes_text_none(m, ord, k + 1, fuel);
    } else {
        assert(ord.take(k) =~= ord);
    }
}

/// The result tag of a game's result code: "1" white won, "2" a draw, "3"
/// black won, "4" unknown; a space otherwise.
pub open spec fn result_text(res: Seq<char>) -> Seq<char> {
    if res == "1"@ {
        "1-0"@
    } else if res == "2"@ {
        "1/2-1/2"@
    } else if res == "3"@ {
        "0-1"@
    } else if res == "4"@ {
        "*"@
    } else {
        " "@
    }
}

/// One of the four game termination markers of PGN.
pub open spec fn is_pgn_result(t: Seq<char>) -> bool {
    t == "1-0"@ || t == "0-1"@ || t == "1/2-1/2"@ || t == "*"@
}

/// Each result code is written as a PGN termination marker, and writing a
/// result code as the result tag and reading the tag back gives
/// the code again, for each of the four codes ("1" white won, "2" a draw,
/// "3" black won, "4" unknown); and each of the three decided results
/// read from its tag is written back as that tag.
pub proof fn law_result_round_trip(res: Seq<char>, tag: Seq<char>)
    ensures
        (res == "1"@ || res == "2"@ || res == "3"@ || res == "4"@) ==> is_pgn_result(result_text(res)),
        (res == "1"@ || res == "2"@ || res == "3"@ || res == "4"@) ==> crate::pgnread::result_code(result_text(res))
            == res,
        (tag == "1-0"@ || tag == "1/2-1/2"@ || tag == "0-1"@) ==> result_text(crate::pgnread::result_code(tag))
            == tag,
{
    reveal_strlit("1");
    reveal_strlit("2");
    reveal_strlit("3");
    reveal_strlit("4");
    reveal_strlit("1-0");
    reveal_strlit("1/2-1/2");
    reveal_strlit("0-1");
    reveal_strlit("*");
    reveal_strlit(" ");
    assert("1"@ =~= seq!['1']);
    assert("2"@ =~= seq!['2']);
    assert("3"@ =~= seq!['3']);
    assert("4"@ =~= seq!['4']);
    assert("1-0"@ =~= seq!['1', '-', '0']);
    assert("0-1"@ =~= seq!['0', '-', '1']);
    assert("1/2-1/2"@ =~= seq!['1', '/', '2', '-', '1', '/', '2']);
    assert("*"@ =~= seq!['*']);
    assert(seq!['1'][0] != seq!['2'][0] && seq!['1'][0] != seq!['3'][0] && seq!['1'][0] != seq!['4'][0]);
    assert(seq!['2'][0] != seq!['3'][0] && seq!['2'][0] != seq!['4'][0] && seq!['3'][0] != seq!['4'][0]);
    assert(seq!['1', '-', '0'][0] != seq!['0', '-', '1'][0]);
    assert(seq!['*'].len() != seq!['1', '-', '0'].len());
    assert(seq!['1', '/', '2', '-', '1', '/', '2'].len() != seq!['1', '-', '0'].len());
}

/// A tag pair line.
pub open spec fn tag_line(name: Seq<char>, value: Seq<char>) -> Seq<char> {
    seq!['['] + name + seq![' ', '"'] + value + seq!['"', ']', '\n']
}

/// The tag pairs of a game, the FEN of its start, and a blank line.
pub open spec fn header_text(g: GameInfo, fen: Seq<char>) -> Seq<char> {
    tag_line("Event"@, g.event@) + tag_line("Site"@, g.site@) + tag_line("Date"@, g.date@) + tag_line("Round"@,
        g.round@) + tag_line("White"@, g.white@) + tag_line("Black"@, g.black@) + tag_line("Result"@, result_text(
        g.res@)) + tag_line("WhiteElo"@, g.elow@) + tag_line("BlackElo"@, g.elob@) + tag_line("FEN"@, fen)
        + tag_line("ECO"@, g.eco@) + seq!['\n']
}

/// The PGN of a game: its tags, then its moves and result.  None when the
/// tree has no root or its moves cannot be written (see `tree_text`).
pub open spec fn pgn_text(m: Map<Seq<char>, NodeModel>, g: GameInfo, fuel: nat) -> Option<Seq<char>> {
    if !m.contains_key(seq!['1', 'z']) {
        None
    } else {
        match tree_text(m, fuel) {
            None => None,
            Some(mv) => Some(header_text(g, m[seq!['1', 'z']].fen) + mv + seq![' '] + result_text(g.res@)
                + seq!['\n']),
        }
    }
}

fn push_tag(v: &mut Vec<char>, name: &str, value: &Vec<char>)
    ensures
        final(v)@ == old(v)@ + tag_line(name@, value@),
{
    v.push('[');
    push_str(v, name);
    v.push(' ');
    v.push('"');
    push_all(v, value);
    v.push('"');
    v.push(']');
    v.push('\n');
    assert(v@ =~= old(v)@ + tag_line(name@, value@));
}

fn result_text_exec(res: &String) -> (r: Vec<char>)
    ensures
        r@ == result_text(res@),
{
    let c = chars_of(res.as_str());
    if crate::pgnsearch::is_text(&c, "1") {
        chars_of("1-0")
    } else if crate::pgnsearch::is_text(&c, "2") {
        chars_of("1/2-1/2")
    } else if crate::pgnsearch::is_text(&c, "3") {
        chars_of("0-1")
    } else if crate::pgnsearch::is_text(&c, "4") {
        chars_of("*")
    } else {
        chars_of(" ")
    }
}

/// Writes a game as PGN (see `pgn_text`), the depth bounded by the number
/// of nodes.
pub fn create_pgn(nodeslist: ListNodes, game_info: GameInfo) -> (r: Option<String>)
    requires
        nodeslist.wf(),
        ascii_keys(nodeslist.map()),
    ensures
        match r {
            Some(s) => pgn_text(nodeslist.map(), game_info, nodeslist.nodes.len() as nat) == Some(s@),
            None => pgn_text(nodeslist.map(), game_info, nodeslist.nodes.len() as nat) is None,
        },
{
    let root = crate::levels::root_node();
    let start_fen = match nodeslist.node_at(&root) {
        Some(n) => chars_of(n.fen.as_str()),
        None => { return None; },
    };
    let g = &game_info;
    let res = result_text_exec(&g.res);
    let mut v: Vec<char> = Vec::new();
    push_tag(&mut v, "Event", &chars_of(g.event.as_str()));
    push_tag(&mut v, "Site", &chars_of(g.site.as_str()));
    push_tag(&mut v, "Date", &chars_of(g.date.as_str()));
    push_tag(&mut v, "Round", &chars_of(g.round.as_str()));
    push_tag(&mut v, "White", &chars_of(g.white.as_str()));
    push_tag(&mut v, "Black", &chars_of(g.black.as_str()));
    push_tag(&mut v, "Result", &res);
    push_tag(&mut v, "WhiteElo", &chars_of(g.elow.as_str()));
    push_tag(&mut v, "BlackElo", &chars_of(g.elob.as_str()));
    push_tag(&mut v, "FEN", &start_fen);
    push_tag(&mut v, "ECO", &chars_of(g.eco.as_str()));
    v.push('\n');
    assert(v@ =~= header_text(game_info, nodeslist.map()[seq!['1', 'z']].fen));
    let moves = match tree_text_exec(&nodeslist) {
        Some(mv) => mv,
        None => { return None; },
    };
    push_all(&mut v, &moves);
    v.push(' ');
    push_all(&mut v, &res);
    v.push('\n');
    Some(string_from_chars(&v))
}

}
