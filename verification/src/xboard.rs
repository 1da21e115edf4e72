use vstd::prelude::*;
use crate::levels::{next_mainline, mainline_ok, mainline_ok_exec, get_next_sibling_indx, child_indx, child_ok_exec,
    get_child_indx, ends_with_number, last_number, root_node, get_next_mainline_indx, branch_ok, branch_node,
    get_branch_node, branch_ok_exec};
use crate::strutil::{chars_of, string_from_chars, push_int};
use crate::board::{Board, squares_after_make, cw_after, cb_after, ep_after, fifty_after, full_after, lemma_wf_unique};
use crate::tables::AttackTables;
use crate::legalmoves::{legal_moves, find_uci, played};
use crate::displaymove::{lemma_legal_congruent, lemma_san_congruent, san_disambig_chars, can_make_two};
use crate::fen::fen_ok;
use crate::pgnread::{fen_of, fen_setup};
use crate::wchess::{piece_text, square_named, new_board, set_fen, get_piece_at_alphasquare, move_uci, get_fen};
use crate::sanmove::is_ascii_text;
use crate::pgnglobs::lemma_two_nodes;
use crate::pgnglobs::{ListNodes, Node, NodeModel};
use crate::pgnread::{sibling_index, edit, with_child};
use crate::strutil::int_chars;

verus! {

// Editing the move tree: the nodes of a subtree copied, moved under new
// indices, taken out, or swapped with the main line.

/// The index of the `i`-th child of the node `p`: the next move for 0, the
/// variation `i` beside it otherwise.
pub open spec fn sib(p: Seq<char>, i: int) -> Seq<char> {
    if i == 0 { next_mainline(p) } else { p + int_chars(i) + seq!['n'] }
}

/// The indices of the first `len` children of `p`.
pub open spec fn sib_names(p: Seq<char>, len: int) -> Seq<Seq<char>> {
    Seq::new(len as nat, |i: int| sib(p, i))
}

pub open spec fn with_children(v: Seq<Seq<char>>) -> spec_fn(NodeModel) -> NodeModel {
    |n: NodeModel| NodeModel { children: v, ..n }
}

/// `x` is reached from `k` by links to children, at most `fuel` nodes deep,
/// without entering a node of `stops` or one that is missing.
pub open spec fn reached(m: Map<Seq<char>, NodeModel>, k: Seq<char>, stops: Set<Seq<char>>, fuel: nat, x: Seq<char>) -> bool
    decreases fuel, 0int,
{
    if fuel == 0 || stops.contains(k) || !m.contains_key(k) {
        false
    } else {
        x == k || reached_in(m, m[k].children, 0, stops, (fuel - 1) as nat, x)
    }
}

/// `x` is reached from one of the nodes `ch[i..]`.
pub open spec fn reached_in(m: Map<Seq<char>, NodeModel>, ch: Seq<Seq<char>>, i: int, stops: Set<Seq<char>>, fuel: nat,
    x: Seq<char>) -> bool
    decreases fuel, ch.len() - i + 1,
{
    if i < 0 || i >= ch.len() {
        false
    } else {
        reached(m, ch[i], stops, fuel, x) || reached_in(m, ch, i + 1, stops, fuel, x)
    }
}

proof fn lemma_reached_in(m: Map<Seq<char>, NodeModel>, ch: Seq<Seq<char>>, i: int, stops: Set<Seq<char>>, fuel: nat,
    x: Seq<char>)
    requires
        0 <= i <= ch.len(),
    ensures
        reached_in(m, ch, i, stops, fuel, x) == exists|j: int| i <= j < ch.len() && #[trigger] reached(m, ch[j], stops, fuel, x),
    decreases ch.len() - i,
{
    if i < ch.len() {
        lemma_reached_in(m, ch, i + 1, stops, fuel, x);
        if reached(m, ch[i], stops, fuel, x) {
            assert(i <= i < ch.len());
        }
        if exists|j: int| i <= j < ch.len() && #[trigger] reached(m, ch[j], stops, fuel, x) {
            let j = choose|j: int| i <= j < ch.len() && #[trigger] reached(m, ch[j], stops, fuel, x);
            if j > i {
                assert(i + 1 <= j < ch.len());
            }
        }
    }
}

/// One step of `reached`: `k` itself, or a node reached from one of its children.
proof fn lemma_reached_step(m: Map<Seq<char>, NodeModel>, k: Seq<char>, stops: Set<Seq<char>>, f1: nat, x: Seq<char>)
    requires
        !stops.contains(k),
        m.contains_key(k),
    ensures
        reached(m, k, stops, f1 + 1, x) == (x == k || exists|i: int|
            0 <= i < m[k].children.len() && #[trigger] reached(m, m[k].children[i], stops, f1, x)),
{
    lemma_reached_in(m, m[k].children, 0, stops, f1, x);
    assert((f1 + 1 - 1) as nat == f1);
}

/// The nodes reached from `k` (see `reached`).
pub open spec fn reach_set(m: Map<Seq<char>, NodeModel>, k: Seq<char>, stops: Set<Seq<char>>, fuel: nat) -> Set<
    Seq<char>,
> {
    Set::new(|x: Seq<char>| reached(m, k, stops, fuel, x))
}

/// Copies to `new` the nodes of `old` reached from `k` without entering
/// `a` or `b`, each as it is.
fn add_other_nodes_promo(src: &ListNodes, k: &String, a: &String, b: &String, new: &mut ListNodes, fuel: usize)
    requires
        src.wf(),
        old(new).wf(),
        old(new).map().submap_of(src.map()),
    ensures
        final(new).wf(),
        final(new).map() == src.map().restrict(old(new).map().dom() + reach_set(src.map(), k@, set![a@, b@], fuel as nat)),
    decreases fuel,
{
    let ghost m = src.map();
    let ghost stops = set![a@, b@];
    let ghost d0 = new.map().dom();
    let ghost f1: nat = (fuel - 1) as nat;
    proof {
        assert(new.map() =~= m.restrict(d0));
    }
    if fuel == 0 || *k == *a || *k == *b {
        assert(reach_set(m, k@, stops, fuel as nat) =~= Set::empty());
        assert(d0 + reach_set(m, k@, stops, fuel as nat) =~= d0);
        return;
    }
    match src.node_at(k) {
        None => {
            assert(reach_set(m, k@, stops, fuel as nat) =~= Set::empty());
            assert(d0 + reach_set(m, k@, stops, fuel as nat) =~= d0);
        },
        Some(node) => {
            let c = node.copy();
            new.put(k.clone(), c);
            let ghost ch = m[k@].children;
            assert(ch == node.children@.map_values(|s: String| s@));
            let mut j: usize = 0;
            while j < node.children.len()
                invariant
                    src.wf(),
                    m == src.map(),
                    stops == set![a@, b@],
                    0 < fuel,
                    f1 + 1 == fuel,
                    m.contains_key(k@),
                    ch == m[k@].children,
                    ch == node.children@.map_values(|s: String| s@),
                    j <= node.children.len(),
                    new.wf(),
                    new.map() == m.restrict(d0.insert(k@) + Set::new(|x: Seq<char>| exists|i: int| 0 <= i < j
                        && #[trigger] reached(m, ch[i], stops, f1, x))),
                decreases node.children.len() - j,
            {
                let ghost s_j = d0.insert(k@) + Set::new(|x: Seq<char>| exists|i: int| 0 <= i < j
                    && #[trigger] reached(m, ch[i], stops, f1, x));
                let ghost s_j1 = d0.insert(k@) + Set::new(|x: Seq<char>| exists|i: int| 0 <= i < j + 1
                    && #[trigger] reached(m, ch[i], stops, f1, x));
                assert(new.map().submap_of(m));
                add_other_nodes_promo(src, &node.children[j], a, b, new, fuel - 1);
                assert(ch[j as int] == node.children@[j as int]@);
                proof {
                    let r_j = reach_set(m, ch[j as int], stops, f1);
                    assert forall|x: Seq<char>| #[trigger] s_j1.contains(x) == (s_j.contains(x) || r_j.contains(x)) by {
                        if r_j.contains(x) {
                            assert(reached(m, ch[j as int], stops, f1, x));
                        }
                        if s_j1.contains(x) && !d0.insert(k@).contains(x) {
                            let i = choose|i: int| 0 <= i < j + 1 && #[trigger] reached(m, ch[i], stops, f1, x);
                            if i < j {
                                assert(s_j.contains(x));
                            } else {
                                assert(r_j.contains(x));
                            }
                        }
                    }
                    assert forall|x: Seq<char>| #[trigger] new.map().dom().contains(x) == m.restrict(s_j1).dom().contains(x) by {
                        assert(new.map().dom().contains(x) == (m.dom().contains(x) && (m.restrict(s_j).dom().contains(x) || r_j.contains(x))));
                    }
                    assert(new.map() =~= m.restrict(s_j1));
                }
                j = j + 1;
            }
            proof {
                let s_n = d0.insert(k@) + Set::new(|x: Seq<char>| exists|i: int| 0 <= i < j && #[trigger] reached(m, ch[i],
                    stops, f1, x));
                assert(!stops.contains(k@));
                assert(j == ch.len());

                assert forall|x: Seq<char>| #[trigger] s_n.contains(x) == (d0 + reach_set(m, k@, stops, fuel as nat)).contains(x) by {
                    lemma_reached_step(m, k@, stops, f1, x);
                    if reached(m, k@, stops, fuel as nat, x) && x != k@ {
                        let i = choose|i: int| 0 <= i < m[k@].children.len() && #[trigger] reached(m, m[k@].children[i], stops, f1, x);
                        assert(reached(m, ch[i], stops, f1, x));
                    }
                    if s_n.contains(x) && !d0.insert(k@).contains(x) {
                        let i = choose|i: int| 0 <= i < j && #[trigger] reached(m, ch[i], stops, f1, x);
                        assert(reached(m, m[k@].children[i], stops, f1, x));
                    }
                }
                assert(s_n =~= d0 + reach_set(m, k@, stops, fuel as nat));
            }
        },
    }
}

/// Copies to `new` the nodes of `src` reached from `k` without entering
/// `sel`, each as it is.
fn add_other_nodes(src: &ListNodes, k: &String, sel: &String, new: &mut ListNodes, fuel: usize)
    requires
        src.wf(),
        old(new).wf(),
        old(new).map().submap_of(src.map()),
    ensures
        final(new).wf(),
        final(new).map() == src.map().restrict(old(new).map().dom() + reach_set(src.map(), k@, set![sel@], fuel as nat)),
{
    assert(set![sel@, sel@] =~= set![sel@]);
    add_other_nodes_promo(src, k, sel, sel, new, fuel);
}

/// The nodes `acc` after the node `o` of `m`, with all that hangs from it,
/// is moved to the index `n` under the parent `par` (see
/// `reallocate_sibling`); None when a node is missing, a level leaves
/// `i32`, an index cannot be counted, or the tree is deeper than `fuel`.
pub open spec fn relabel(m: Map<Seq<char>, NodeModel>, o: Seq<char>, n: Seq<char>, delta: int, par: Seq<char>,
    fuel: nat, acc: Map<Seq<char>, NodeModel>) -> Option<Map<Seq<char>, NodeModel>>
    decreases fuel, 0int,
{
    if fuel == 0 || !m.contains_key(o) || m[o].branch_level + delta < i32::MIN || m[o].branch_level + delta
        > i32::MAX || m[o].children.len() > i32::MAX {
        None
    } else {
        let node = NodeModel { branch_level: m[o].branch_level + delta, parent: par, ..m[o] };
        let a1 = acc.remove(o).insert(n, node);
        match relabel_kids(m, m[o].children, 0, n, delta, (fuel - 1) as nat, a1) {
            None => None,
            Some(a2) => Some(edit(a2, n, with_children(sib_names(n, m[o].children.len() as int)))),
        }
    }
}

/// The nodes `acc` after the children `ch[j..]` are moved under `n`, each
/// to the index of its place.
pub open spec fn relabel_kids(m: Map<Seq<char>, NodeModel>, ch: Seq<Seq<char>>, j: int, n: Seq<char>, delta: int,
    fuel: nat, acc: Map<Seq<char>, NodeModel>) -> Option<Map<Seq<char>, NodeModel>>
    decreases fuel, ch.len() - j + 1,
{
    if j < 0 || j >= ch.len() {
        Some(acc)
    } else {
        match sibling_index(n, j) {
            None => None,
            Some(c) => match relabel(m, ch[j], c, delta, n, fuel, acc) {
                None => None,
                Some(a) => relabel_kids(m, ch, j + 1, n, delta, fuel, a),
            },
        }
    }
}

/// Moves the node `old_indx` of `old_nodes`, with all that hangs from it,
/// into `new_nodes` under the index `new_indx` and the parent
/// `parent_indx`: the node under its old index is dropped, each moved node
/// has its level shifted by `branch_level_delta`, and the children of each
/// are renamed after the index it gets.  Returns whether that could be done
/// (see `relabel`).
fn reallocate_sibling(new_nodes: &mut ListNodes, old_nodes: &ListNodes, old_indx: String, new_indx: String,
    branch_level_delta: i32, parent_indx: String, fuel: usize) -> (ok: bool)
    requires
        old_nodes.wf(),
        old(new_nodes).wf(),
    ensures
        ok == relabel(old_nodes.map(), old_indx@, new_indx@, branch_level_delta as int, parent_indx@, fuel as nat,
            old(new_nodes).map()) is Some,
        ok ==> final(new_nodes).wf() && final(new_nodes).map() == relabel(old_nodes.map(), old_indx@, new_indx@,
            branch_level_delta as int, parent_indx@, fuel as nat, old(new_nodes).map())->0,
    decreases fuel,
{
    let ghost m = old_nodes.map();
    let ghost acc0 = new_nodes.map();
    if fuel == 0 {
        return false;
    }
    let node = match old_nodes.node_at(&old_indx) {
        None => { return false; },
        Some(x) => x,
    };
    let bl = node.branch_level as i64 + branch_level_delta as i64;
    if bl < i32::MIN as i64 || bl > i32::MAX as i64 || node.children.len() > 0x7fff_ffff {
        return false;
    }
    let ghost f1: nat = (fuel - 1) as nat;
    new_nodes.remove_node(&old_indx);
    let mut newnode = node.copy();
    newnode.branch_level = bl as i32;
    newnode.parent_indx = parent_indx;
    let ghost nm = newnode.model();
    new_nodes.put(new_indx.clone(), newnode);
    let ghost a1 = new_nodes.map();
    let ghost ch = m[old_indx@].children;
    assert(a1 == acc0.remove(old_indx@).insert(new_indx@, NodeModel { branch_level: m[old_indx@].branch_level
        + branch_level_delta, parent: parent_indx@, ..m[old_indx@] }));
    assert(relabel(m, old_indx@, new_indx@, branch_level_delta as int, parent_indx@, fuel as nat, acc0) == match
        relabel_kids(m, ch, 0, new_indx@, branch_level_delta as int, f1, a1) {
        None => None,
        Some(a2) => Some(edit(a2, new_indx@, with_children(sib_names(new_indx@, ch.len() as int)))),
    });
    let mut new_children: Vec<String> = Vec::new();
    let mut j: usize = 0;
    while j < node.children.len()
        invariant
            old_nodes.wf(),
            m == old_nodes.map(),
            m.contains_key(old_indx@),
            ch == m[old_indx@].children,
            ch == node.children@.map_values(|s: String| s@),
            ch.len() <= i32::MAX,
            fuel == f1 + 1,
            j <= node.children.len(),
            new_nodes.wf(),
            new_children.len() == j,
            forall|i: int| 0 <= i < j ==> (#[trigger] new_children@[i])@ == sib(new_indx@, i),
            relabel_kids(m, ch, 0, new_indx@, branch_level_delta as int, f1, a1) == relabel_kids(m, ch, j as int,
                new_indx@, branch_level_delta as int, f1, new_nodes.map()),
            relabel(m, old_indx@, new_indx@, branch_level_delta as int, parent_indx@, fuel as nat, acc0) == match
                relabel_kids(m, ch, 0, new_indx@, branch_level_delta as int, f1, a1) {
                None => None,
                Some(a2) => Some(edit(a2, new_indx@, with_children(sib_names(new_indx@, ch.len() as int)))),
            },
            acc0 == old(new_nodes).map(),
        decreases node.children.len() - j,
    {
        if j == 0 && !mainline_ok_exec(&new_indx) {
            assert(sibling_index(new_indx@, 0) is None);
            assert(relabel_kids(m, ch, j as int, new_indx@, branch_level_delta as int, f1, new_nodes.map()) is None);
            return false;
        }
        let c = get_next_sibling_indx(new_indx.clone(), j as i32);
        assert(sibling_index(new_indx@, j as int) == Some(c@));
        assert(c@ == sib(new_indx@, j as int));
        let ghost before = new_nodes.map();
        assert(ch[j as int] == node.children@[j as int]@);
        let ok = reallocate_sibling(new_nodes, old_nodes, node.children[j].clone(), c.clone(), branch_level_delta,
            new_indx.clone(), fuel - 1);
        if !ok {
            assert(relabel_kids(m, ch, j as int, new_indx@, branch_level_delta as int, f1, before) is None);
            return false;
        }
        new_children.push(c);
        j = j + 1;
    }
    let ghost a2 = new_nodes.map();
    assert(relabel_kids(m, ch, 0, new_indx@, branch_level_delta as int, f1, a1) == Some(a2));
    match new_nodes.node_at(&new_indx) {
        None => {
            assert(edit(a2, new_indx@, with_children(sib_names(new_indx@, ch.len() as int))) == a2);
        },
        Some(x) => {
            let mut y = x.copy();
            y.children = new_children;
            assert(y.model() == with_children(sib_names(new_indx@, ch.len() as int))(a2[new_indx@])) by {
                assert(y.model().children =~= sib_names(new_indx@, ch.len() as int));
            }
            new_nodes.put(new_indx, y);
        },
    }
    true
}

/// Every child named by a node is in the tree.
pub open spec fn closed(m: Map<Seq<char>, NodeModel>) -> bool {
    forall|k: Seq<char>, i: int| m.contains_key(k) && 0 <= i < m[k].children.len() ==> #[trigger] m.contains_key(
        m[k].children[i])
}

/// The tree has two different nodes at least.
pub open spec fn two_or_more(m: Map<Seq<char>, NodeModel>) -> bool {
    exists|a: Seq<char>, b: Seq<char>| a != b && #[trigger] m.contains_key(a) && #[trigger] m.contains_key(b)
}

/// The index can be read by `get_child_indx`.
pub open spec fn child_readable(s: Seq<char>) -> bool {
    is_ascii_text(s) && (ends_with_number(s, 'n') ==> last_number(s) <= i32::MAX)
}

/// The nodes `acc` after the children `i..len` of `p` each move up one
/// place, with all that hangs from them; the one that moves to the first
/// place comes a level closer to the main line.
pub open spec fn move_up_from(m: Map<Seq<char>, NodeModel>, p: Seq<char>, i: int, len: int, fuel: nat, acc: Map<
    Seq<char>,
    NodeModel,
>) -> Option<Map<Seq<char>, NodeModel>>
    decreases len - i,
{
    if i >= len || i < 1 {
        Some(acc)
    } else {
        match relabel(m, sib(p, i), sib(p, i - 1), if i == 1 { -1 } else { 0 }, p, fuel, acc) {
            None => None,
            Some(a) => move_up_from(m, p, i + 1, len, fuel, a),
        }
    }
}

/// The tree without the node `sel` and all that hangs from it, and the
/// index of its parent: the nodes reached from the root (at most `fuel`
/// deep) but those, the parent left with one child less, and the later
/// children of the parent moved up one place each under the index of that
/// place.  For the root nothing changes and `nodefrom` comes back.  None
/// when a node is missing, the parent has no children, an index cannot be
/// read or counted, or a level leaves `i32`.
pub open spec fn stripped(m: Map<Seq<char>, NodeModel>, sel: Seq<char>, nodefrom: Seq<char>, fuel: nat) -> Option<
    (Map<Seq<char>, NodeModel>, Seq<char>),
> {
    if sel == seq!['1', 'z'] {
        Some((m, nodefrom))
    } else if !m.contains_key(sel) || !m.contains_key(m[sel].parent) {
        None
    } else {
        let p = m[sel].parent;
        let len = m[p].children.len() as int;
        if len == 0 || len > i32::MAX || (len >= 2 && !mainline_ok(p)) || !child_readable(sel) || child_indx(sel)
            >= i32::MAX {
            None
        } else {
            let base = m.restrict(reach_set(m, seq!['1', 'z'], set![sel], fuel));
            let a1 = edit(base, p, with_children(sib_names(p, len - 1)));
            match move_up_from(m, p, child_indx(sel) + 1, len, fuel, a1) {
                None => None,
                Some(a) => Some((a, p)),
            }
        }
    }
}

/// Takes the selected node, and all that hangs from it, out of the tree
/// (see `stripped`, with the number of nodes as the depth bound).  Returns
/// the new tree and the index to select next; None where `stripped` is None.
pub fn strip_variation(nodes: &ListNodes, selected_node: String, nodefrom: String) -> (r: Option<(ListNodes, String)>)
    requires
        nodes.wf(),
        closed(nodes.map()),
    ensures
        match r {
            Some((l, idx)) => l.wf() && stripped(nodes.map(), selected_node@, nodefrom@, nodes.nodes.len() as nat)
                == Some((l.map(), idx@)),
            None => stripped(nodes.map(), selected_node@, nodefrom@, nodes.nodes.len() as nat) is None,
        },
{
    let ghost m = nodes.map();
    let fuel = nodes.nodes.len();
    let root = root_node();
    if selected_node == root {
        return Some((nodes.copy(), nodefrom));
    }
    let sel_node = match nodes.node_at(&selected_node) {
        None => { return None; },
        Some(x) => x,
    };
    let parent_indx = sel_node.parent_indx.clone();
    let par_node = match nodes.node_at(&parent_indx) {
        None => { return None; },
        Some(x) => x,
    };
    let ghost p = parent_indx@;
    let len = par_node.children.len();
    assert(len == m[p].children.len());
    if len == 0 || len > 0x7fff_ffff {
        return None;
    }
    if len >= 2 && !mainline_ok_exec(&parent_indx) {
        return None;
    }
    if !child_ok_exec(&selected_node) {
        return None;
    }
    let ci = get_child_indx(selected_node.clone());
    if ci == 0x7fff_ffff {
        return None;
    }
    proof { crate::levels::lemma_child_indx_nonneg(selected_node@); }
    let mut new_list = ListNodes::new();
    assert(new_list.map() =~= Map::<Seq<char>, NodeModel>::empty()) by {
        assert forall|q: Seq<char>| !(#[trigger] new_list.map().contains_key(q)) by {
            crate::pgnglobs::lemma_has(new_list, q);
        }
    }
    add_other_nodes(nodes, &root, &selected_node, &mut new_list, fuel);
    let ghost base = new_list.map();
    assert(base =~= m.restrict(reach_set(m, seq!['1', 'z'], set![selected_node@], fuel as nat)));
    let mut names: Vec<String> = Vec::new();
    let mut i: usize = 0;
    while i < len - 1
        invariant
            i <= len - 1,
            len >= 1,
            len <= i32::MAX,
            len >= 2 ==> mainline_ok(p),
            p == parent_indx@,
            names.len() == i,
            forall|j: int| 0 <= j < i ==> (#[trigger] names@[j])@ == sib(p, j),
        decreases len - 1 - i,
    {
        let c = get_next_sibling_indx(parent_indx.clone(), i as i32);
        names.push(c);
        i = i + 1;
    }
    match new_list.node_at(&parent_indx) {
        None => {
            assert(edit(base, p, with_children(sib_names(p, len - 1))) == base);
        },
        Some(x) => {
            let mut y = x.copy();
            y.children = names;
            assert(y.model().children =~= sib_names(p, len - 1));
            new_list.put(parent_indx.clone(), y);
        },
    }
    let ghost a1 = new_list.map();
    assert(a1 == edit(base, p, with_children(sib_names(p, len - 1))));
    assert(stripped(m, selected_node@, nodefrom@, fuel as nat) == match move_up_from(m, p, child_indx(selected_node@)
        + 1, len as int, fuel as nat, a1) {
        None => None,
        Some(a) => Some((a, p)),
    });
    let mut i: usize = (ci + 1) as usize;
    while i < len
        invariant
            stripped(m, selected_node@, nodefrom@, fuel as nat) == match move_up_from(m, p, child_indx(selected_node@)
                + 1, len as int, fuel as nat, a1) {
                None => None,
                Some(a) => Some((a, p)),
            },
            nodes.wf(),
            m == nodes.map(),
            fuel == nodes.nodes.len(),
            1 <= i,
            len <= i32::MAX,
            len >= 2 ==> mainline_ok(p),
            p == parent_indx@,
            new_list.wf(),
            move_up_from(m, p, child_indx(selected_node@) + 1, len as int, fuel as nat, a1) == move_up_from(m, p,
                i as int, len as int, fuel as nat, new_list.map()),
        decreases len - i,
    {
        let delta: i32 = if i == 1 { -1 } else { 0 };
        let o = get_next_sibling_indx(parent_indx.clone(), i as i32);
        let n = get_next_sibling_indx(parent_indx.clone(), (i - 1) as i32);
        let ghost before = new_list.map();
        assert(o@ == sib(p, i as int) && n@ == sib(p, i - 1));
        let ok = reallocate_sibling(&mut new_list, nodes, o, n, delta, parent_indx.clone(), fuel);
        if !ok {
            assert(move_up_from(m, p, i as int, len as int, fuel as nat, before) is None);
            return None;
        }
        i = i + 1;
    }
    Some((new_list, parent_indx))
}

/// Takes the active node, and all that hangs from it, out of the tree when
/// that leaves more than one node, and selects the index given back (see
/// `strip_variation`); else leaves both as they are.
pub fn strip_variation_handler(nodes: &mut ListNodes, active: &mut String, nodefrom: String)
    requires
        old(nodes).wf(),
        closed(old(nodes).map()),
    ensures
        final(nodes).wf(),
        match stripped(old(nodes).map(), old(active)@, nodefrom@, old(nodes).nodes.len() as nat) {
            Some((m2, idx)) if two_or_more(m2) => final(nodes).map() == m2 && final(active)@ == idx,
            _ => final(nodes).map() == old(nodes).map() && final(active)@ == old(active)@,
        },
{
    match strip_variation(nodes, active.clone(), nodefrom) {
        None => {},
        Some((new_nodes, new_node_indx)) => {
            proof { lemma_two_nodes(new_nodes); }
            if new_nodes.nodes.len() > 1 {
                *nodes = new_nodes;
                *active = new_node_indx;
            }
        },
    }
}

/// The index a child `c` of a node gets when the node moves to `n`: the
/// next move (`c` equal to `cont`) follows `n` on its line; a variation
/// keeps its number, now beside `n`.  None when that cannot be computed.
pub open spec fn promo_name(c: Seq<char>, cont: Seq<char>, n: Seq<char>) -> Option<Seq<char>> {
    if c == cont {
        if mainline_ok(n) { Some(next_mainline(n)) } else { None }
    } else if child_readable(c) {
        Some(n + int_chars(child_indx(c)) + seq!['n'])
    } else {
        None
    }
}

/// The indices the children `ch` get under `n` (see `promo_name`).
pub open spec fn promo_names(ch: Seq<Seq<char>>, cont: Seq<char>, n: Seq<char>) -> Seq<Seq<char>> {
    Seq::new(ch.len(), |j: int| promo_name(ch[j], cont, n)->0)
}

/// The nodes and the index of `sel` (`acc`) after the node `o` of `m`,
/// with all that hangs from it, is copied to the index `n` under the
/// parent `par` (see `rename_node_promo`): the levels shifted by `delta`,
/// the children renamed by `promo_name`, and `sel` followed to its new
/// index.  None when a node is missing, an index cannot be computed, a
/// level leaves `i32`, or the tree is deeper than `fuel`.
pub open spec fn renamed(m: Map<Seq<char>, NodeModel>, o: Seq<char>, n: Seq<char>, par: Seq<char>, delta: int,
    sel: Seq<char>, fuel: nat, acc: (Map<Seq<char>, NodeModel>, Seq<char>)) -> Option<
    (Map<Seq<char>, NodeModel>, Seq<char>),
>
    decreases fuel, 0int,
{
    if fuel == 0 || !m.contains_key(o) || m[o].branch_level + delta < i32::MIN || m[o].branch_level + delta
        > i32::MAX || !mainline_ok(o) || m[o].children.len() > i32::MAX {
        None
    } else {
        let node = NodeModel { branch_level: m[o].branch_level + delta, parent: par, ..m[o] };
        let a1 = (acc.0.insert(n, node), if o == sel { n } else { acc.1 });
        match renamed_kids(m, m[o].children, 0, next_mainline(o), n, delta, sel, (fuel - 1) as nat, a1) {
            None => None,
            Some(a2) => Some(
                (edit(a2.0, n, with_children(promo_names(m[o].children, next_mainline(o), n))), a2.1),
            ),
        }
    }
}

/// The nodes and the index of `sel` after the children `ch[j..]` are
/// copied under `n` (see `renamed`).
pub open spec fn renamed_kids(m: Map<Seq<char>, NodeModel>, ch: Seq<Seq<char>>, j: int, cont: Seq<char>, n: Seq<
    char,
>, delta: int, sel: Seq<char>, fuel: nat, acc: (Map<Seq<char>, NodeModel>, Seq<char>)) -> Option<
    (Map<Seq<char>, NodeModel>, Seq<char>),
>
    decreases fuel, ch.len() - j + 1,
{
    if j < 0 || j >= ch.len() {
        Some(acc)
    } else {
        match promo_name(ch[j], cont, n) {
            None => None,
            Some(c) => match renamed(m, ch[j], c, n, delta, sel, fuel, acc) {
                None => None,
                Some(a) => renamed_kids(m, ch, j + 1, cont, n, delta, sel, fuel, a),
            },
        }
    }
}

/// Copies the node `old_indx` of `old_nodes`, with all that hangs from
/// it, into `new_nodes` under `new_indx` and the parent `new_parent_indx`
/// (see `renamed`); `new_cur_indx` follows the selected node.  Returns
/// whether that could be done.
fn rename_node_promo(old_indx: String, new_indx: String, new_parent_indx: String, branch_level_delta: i32,
    new_nodes: &mut ListNodes, old_nodes: &ListNodes, selected_node: &String, new_cur_indx: &mut String, fuel: usize)
    -> (ok: bool)
    requires
        old_nodes.wf(),
        old(new_nodes).wf(),
    ensures
        ok == renamed(old_nodes.map(), old_indx@, new_indx@, new_parent_indx@, branch_level_delta as int,
            selected_node@, fuel as nat, (old(new_nodes).map(), old(new_cur_indx)@)) is Some,
        ok ==> final(new_nodes).wf() && (final(new_nodes).map(), final(new_cur_indx)@) == renamed(old_nodes.map(),
            old_indx@, new_indx@, new_parent_indx@, branch_level_delta as int, selected_node@, fuel as nat, (
            old(new_nodes).map(), old(new_cur_indx)@))->0,
    decreases fuel,
{
    let ghost m = old_nodes.map();
    let ghost acc0 = (new_nodes.map(), new_cur_indx@);
    if fuel == 0 {
        return false;
    }
    let node = match old_nodes.node_at(&old_indx) {
        None => { return false; },
        Some(x) => x,
    };
    let bl = node.branch_level as i64 + branch_level_delta as i64;
    if bl < i32::MIN as i64 || bl > i32::MAX as i64 || node.children.len() > 0x7fff_ffff {
        return false;
    }
    if !mainline_ok_exec(&old_indx) {
        return false;
    }
    let ghost f1: nat = (fuel - 1) as nat;
    let mut newnode = node.copy();
    newnode.branch_level = bl as i32;
    newnode.parent_indx = new_parent_indx;
    new_nodes.put(new_indx.clone(), newnode);
    if old_indx == *selected_node {
        *new_cur_indx = new_indx.clone();
    }
    let ghost a1 = (new_nodes.map(), new_cur_indx@);
    let ghost ch = m[old_indx@].children;
    let mainline_continuation = get_next_mainline_indx(old_indx.clone());
    let ghost cont = mainline_continuation@;
    assert(renamed(m, old_indx@, new_indx@, new_parent_indx@, branch_level_delta as int, selected_node@, fuel as nat,
        acc0) == match renamed_kids(m, ch, 0, cont, new_indx@, branch_level_delta as int, selected_node@, f1, a1) {
        None => None,
        Some(a2) => Some((edit(a2.0, new_indx@, with_children(promo_names(ch, cont, new_indx@))), a2.1)),
    });
    let mut new_children: Vec<String> = Vec::new();
    let mut j: usize = 0;
    while j < node.children.len()
        invariant
            old_nodes.wf(),
            m == old_nodes.map(),
            m.contains_key(old_indx@),
            ch == m[old_indx@].children,
            ch == node.children@.map_values(|s: String| s@),
            cont == mainline_continuation@,
            fuel == f1 + 1,
            j <= node.children.len(),
            new_nodes.wf(),
            new_children.len() == j,
            forall|i: int| 0 <= i < j ==> promo_name(ch[i], cont, new_indx@) == Some((#[trigger] new_children@[i])@),
            renamed_kids(m, ch, 0, cont, new_indx@, branch_level_delta as int, selected_node@, f1, a1)
                == renamed_kids(m, ch, j as int, cont, new_indx@, branch_level_delta as int, selected_node@, f1, (
                new_nodes.map(), new_cur_indx@)),
            renamed(m, old_indx@, new_indx@, new_parent_indx@, branch_level_delta as int, selected_node@, fuel as nat,
                acc0) == match renamed_kids(m, ch, 0, cont, new_indx@, branch_level_delta as int, selected_node@, f1,
                a1) {
                None => None,
                Some(a2) => Some((edit(a2.0, new_indx@, with_children(promo_names(ch, cont, new_indx@))), a2.1)),
            },
            acc0 == (old(new_nodes).map(), old(new_cur_indx)@),
        decreases node.children.len() - j,
    {
        let ghost before = (new_nodes.map(), new_cur_indx@);
        assert(ch[j as int] == node.children@[j as int]@);
        let c: String;
        if node.children[j] == mainline_continuation {
            if !mainline_ok_exec(&new_indx) {
                assert(promo_name(ch[j as int], cont, new_indx@) is None);
                return false;
            }
            c = get_next_mainline_indx(new_indx.clone());
        } else {
            if !child_ok_exec(&node.children[j]) {
                assert(promo_name(ch[j as int], cont, new_indx@) is None);
                return false;
            }
            let k = get_child_indx(node.children[j].clone());
            let mut v = chars_of(new_indx.as_str());
            push_int(&mut v, k);
            v.push('n');
            c = string_from_chars(&v);
            assert(c@ =~= new_indx@ + int_chars(k as int) + seq!['n']);
        }
        assert(promo_name(ch[j as int], cont, new_indx@) == Some(c@));
        let ok = rename_node_promo(node.children[j].clone(), c.clone(), new_indx.clone(), branch_level_delta,
            new_nodes, old_nodes, selected_node, new_cur_indx, fuel - 1);
        if !ok {
            assert(renamed_kids(m, ch, j as int, cont, new_indx@, branch_level_delta as int, selected_node@, f1,
                before) is None);
            return false;
        }
        new_children.push(c);
        j = j + 1;
    }
    let ghost a2 = (new_nodes.map(), new_cur_indx@);
    assert(renamed_kids(m, ch, 0, cont, new_indx@, branch_level_delta as int, selected_node@, f1, a1) == Some(a2));
    match new_nodes.node_at(&new_indx) {
        None => {
            assert(edit(a2.0, new_indx@, with_children(promo_names(ch, cont, new_indx@))) == a2.0);
        },
        Some(x) => {
            let mut y = x.copy();
            y.children = new_children;
            assert(y.model().children =~= promo_names(ch, cont, new_indx@));
            new_nodes.put(new_indx, y);
        },
    }
    true
}

/// Going up from `s` by parents, the first node whose parent is `bp`, at
/// most `fuel` steps up; None when a node is missing or none is found.
pub open spec fn split_of(m: Map<Seq<char>, NodeModel>, s: Seq<char>, bp: Seq<char>, fuel: nat) -> Option<Seq<char>>
    decreases fuel,
{
    if !m.contains_key(s) {
        None
    } else if m[s].parent == bp {
        Some(s)
    } else if fuel == 0 {
        None
    } else {
        split_of(m, m[s].parent, bp, (fuel - 1) as nat)
    }
}

/// The tree after the variation of `sel` swaps places with the line it
/// branches from, and the new index of `sel`: the first node of the
/// variation (found going up from `sel`) takes the index of the first node
/// of that line, and the other way round, each with all that hangs from
/// it, a level up and a level down (see `renamed`); the nodes reached from
/// the root without entering either (at most `fuel` deep) stay as they
/// are.  For a node on the main line nothing changes and `sel` comes back.
/// None when an index cannot be read or counted, a node is missing, a
/// level leaves `i32`, or the tree is deeper than `fuel`.
pub open spec fn promoted(m: Map<Seq<char>, NodeModel>, sel: Seq<char>, fuel: nat) -> Option<
    (Map<Seq<char>, NodeModel>, Seq<char>),
> {
    if !branch_ok(sel) {
        None
    } else {
        match branch_node(sel) {
            None => Some((m, sel)),
            Some(b) => if !m.contains_key(b) {
                None
            } else {
                let bp = m[b].parent;
                match split_of(m, sel, bp, fuel) {
                    None => None,
                    Some(sp) => {
                        let base = m.restrict(reach_set(m, seq!['1', 'z'], set![b, sp], fuel));
                        match renamed(m, b, sp, bp, 1, sel, fuel, (base, Seq::<char>::empty())) {
                            None => None,
                            Some(r1) => renamed(m, sp, b, bp, -1, sel, fuel, r1),
                        }
                    },
                }
            },
        }
    }
}

/// Makes the variation of the node `cur_node` the line it branches from,
/// and that line a variation (see `promoted`, with the number of nodes as
/// the bound).  Returns the new tree and the new index of `cur_node`; None
/// where `promoted` is None.
pub fn promote_variation(cur_node: String, old_nodes: &ListNodes) -> (r: Option<(ListNodes, String)>)
    requires
        old_nodes.wf(),
        closed(old_nodes.map()),
    ensures
        match r {
            Some((l, idx)) => l.wf() && promoted(old_nodes.map(), cur_node@, old_nodes.nodes.len() as nat) == Some(
                (l.map(), idx@),
            ),
            None => promoted(old_nodes.map(), cur_node@, old_nodes.nodes.len() as nat) is None,
        },
{
    let ghost m = old_nodes.map();
    let fuel = old_nodes.nodes.len();
    let selected_node = cur_node.clone();
    if !branch_ok_exec(&selected_node) {
        return None;
    }
    let branch_indx = match get_branch_node(selected_node.clone()) {
        None => { return Some((old_nodes.copy(), selected_node)); },
        Some(b) => b,
    };
    let bp = match old_nodes.node_at(&branch_indx) {
        None => { return None; },
        Some(x) => x.parent_indx.clone(),
    };
    assert(branch_node(cur_node@) == Some(branch_indx@));
    assert(m.contains_key(branch_indx@) && bp@ == m[branch_indx@].parent);
    assert(split_of(m, cur_node@, bp@, fuel as nat) is None ==> promoted(m, cur_node@, fuel as nat) is None);
    let mut split_indx = selected_node.clone();
    let mut steps: usize = 0;
    loop
        invariant
            old_nodes.wf(),
            m == old_nodes.map(),
            steps <= fuel,
            split_of(m, cur_node@, bp@, fuel as nat) == split_of(m, split_indx@, bp@, (fuel - steps) as nat),
            split_of(m, cur_node@, bp@, fuel as nat) is None ==> promoted(m, cur_node@, fuel as nat) is None,
            fuel == old_nodes.nodes.len(),
        ensures
            split_of(m, cur_node@, bp@, fuel as nat) == Some(split_indx@),
        decreases fuel - steps,
    {
        let par = match old_nodes.node_at(&split_indx) {
            None => { return None; },
            Some(x) => x.parent_indx.clone(),
        };
        if par == bp {
            break;
        }
        if steps == fuel {
            return None;
        }
        split_indx = par;
        steps = steps + 1;
    }
    let ghost sp = split_indx@;
    let ghost b = branch_indx@;
    let ghost base = m.restrict(reach_set(m, seq!['1', 'z'], set![b, sp], fuel as nat));
    assert(promoted(m, cur_node@, fuel as nat) == match renamed(m, b, sp, bp@, 1, cur_node@, fuel as nat, (base,
        Seq::<char>::empty())) {
        None => None,
        Some(r1) => renamed(m, sp, b, bp@, -1, cur_node@, fuel as nat, r1),
    });
    let root = root_node();
    let mut new_nodes = ListNodes::new();
    assert(new_nodes.map() =~= Map::<Seq<char>, NodeModel>::empty()) by {
        assert forall|q: Seq<char>| !(#[trigger] new_nodes.map().contains_key(q)) by {
            crate::pgnglobs::lemma_has(new_nodes, q);
        }
    }
    add_other_nodes_promo(old_nodes, &root, &branch_indx, &split_indx, &mut new_nodes, fuel);
    assert(new_nodes.map() =~= base);
    let mut new_cur_indx = String::new();
    let ok1 = rename_node_promo(branch_indx.clone(), split_indx.clone(), bp.clone(), 1, &mut new_nodes, old_nodes,
        &selected_node, &mut new_cur_indx, fuel);
    if !ok1 {
        return None;
    }
    let ok2 = rename_node_promo(split_indx.clone(), branch_indx.clone(), bp, -1, &mut new_nodes, old_nodes,
        &selected_node, &mut new_cur_indx, fuel);
    if !ok2 {
        return None;
    }
    Some((new_nodes, new_cur_indx))
}

/// Promotes the variation of the active node when it is not on the main
/// line (level 0) and that leaves more than one node, and selects its new
/// index (see `promote_variation`); else leaves both as they are.
pub fn promote_variation_handler(nodes: &mut ListNodes, active: &mut String)
    requires
        old(nodes).wf(),
        closed(old(nodes).map()),
        old(nodes).map().contains_key(old(active)@),
    ensures
        final(nodes).wf(),
        if old(nodes).map()[old(active)@].branch_level == 0 {
            final(nodes).map() == old(nodes).map() && final(active)@ == old(active)@
        } else {
            match promoted(old(nodes).map(), old(active)@, old(nodes).nodes.len() as nat) {
                Some((m2, idx)) if two_or_more(m2) => final(nodes).map() == m2 && final(active)@ == idx,
                _ => final(nodes).map() == old(nodes).map() && final(active)@ == old(active)@,
            }
        },
{
    let level = match nodes.node_at(active) {
        None => { return; },
        Some(x) => x.branch_level,
    };
    if level == 0 {
        return;
    }
    match promote_variation(active.clone(), nodes) {
        None => {},
        Some((new_nodes, new_node_indx)) => {
            proof { lemma_two_nodes(new_nodes); }
            if new_nodes.nodes.len() > 1 {
                *nodes = new_nodes;
                *active = new_node_indx;
            }
        },
    }
}

/// The first of the children `ch[i..]` whose position is the FEN `f`.
pub open spec fn child_with_fen(m: Map<Seq<char>, NodeModel>, ch: Seq<Seq<char>>, i: int, f: Seq<char>) -> Option<
    Seq<char>,
>
    decreases ch.len() - i,
{
    if i < 0 || i >= ch.len() {
        None
    } else if m[ch[i]].fen == f {
        Some(ch[i])
    } else {
        child_with_fen(m, ch, i + 1, f)
    }
}

/// The tree after a move to the position `f`, written `san`, from the node
/// `k`, the node to select and whether it is new: a child of `k` already
/// at that position is selected as it is; else a node for the move is
/// added as the next child of `k`, on the level of `k` when it is the only
/// child and a level further otherwise.  None when the index of the new
/// node cannot be counted or its level leaves `i32`.
pub open spec fn moved_to(m: Map<Seq<char>, NodeModel>, k: Seq<char>, f: Seq<char>, san: Seq<char>) -> Option<
    (Map<Seq<char>, NodeModel>, Seq<char>, bool),
> {
    let ch = m[k].children;
    match child_with_fen(m, ch, 0, f) {
        Some(c) => Some((m, c, false)),
        None => if ch.len() >= i32::MAX || sibling_index(k, ch.len() as int) is None || (ch.len() > 0
            && m[k].branch_level + 1 > i32::MAX) {
            None
        } else {
            let n = sibling_index(k, ch.len() as int)->0;
            let m1 = edit(m, k, with_child(n));
            let level = if m1[k].children.len() == 1 { m[k].branch_level } else { m[k].branch_level + 1 };
            let node = NodeModel {
                children: seq![],
                branch_level: level,
                fen: f,
                san: san,
                parent: k,
                nag: seq![],
                start_comment: seq![],
                comment: seq![],
            };
            Some((m1.insert(n, node), n, true))
        },
    }
}

/// A move made on the board from the node `node_indx`, which took the game
/// to the position `vfen` and is written `san`, goes into the tree (see
/// `moved_to`).  Returns the node to select and whether it was added.
pub fn xb_make_move(nodes: &mut ListNodes, node_indx: String, vfen: String, san: String) -> (r: Option<(String, bool)>)
    requires
        old(nodes).wf(),
        closed(old(nodes).map()),
        old(nodes).map().contains_key(node_indx@),
    ensures
        final(nodes).wf(),
        match r {
            Some((idx, added)) => moved_to(old(nodes).map(), node_indx@, vfen@, san@) == Some(
                (final(nodes).map(), idx@, added),
            ),
            None => moved_to(old(nodes).map(), node_indx@, vfen@, san@) is None && final(nodes).map() == old(
                nodes).map(),
        },
{
    let ghost m = nodes.map();
    let cur_node = match nodes.node_at(&node_indx) {
        None => { return None; },
        Some(x) => x.copy(),
    };
    let ghost ch = m[node_indx@].children;
    let len = cur_node.children.len();
    let mut i: usize = 0;
    while i < len
        invariant
            nodes.wf(),
            m == nodes.map(),
            closed(m),
            m.contains_key(node_indx@),
            ch == m[node_indx@].children,
            ch == cur_node.children@.map_values(|s: String| s@),
            len == cur_node.children.len(),
            i <= len,
            child_with_fen(m, ch, 0, vfen@) == child_with_fen(m, ch, i as int, vfen@),
        decreases len - i,
    {
        assert(ch[i as int] == cur_node.children@[i as int]@);
        assert(m.contains_key(ch[i as int]));
        let c = match nodes.node_at(&cur_node.children[i]) {
            None => { return None; },
            Some(x) => x,
        };
        if c.fen == vfen {
            return Some((cur_node.children[i].clone(), false));
        }
        i = i + 1;
    }
    if len >= 0x7fff_ffff {
        return None;
    }
    if len == 0 && !mainline_ok_exec(&node_indx) {
        return None;
    }
    if len > 0 && cur_node.branch_level == 0x7fff_ffff {
        return None;
    }
    let new_node_indx = get_next_sibling_indx(node_indx.clone(), len as i32);
    assert(sibling_index(node_indx@, ch.len() as int) == Some(new_node_indx@));
    let mut parent = cur_node.copy();
    parent.children.push(new_node_indx.clone());
    assert(parent.model() == with_child(new_node_indx@)(m[node_indx@])) by {
        assert(parent.model().children =~= ch.push(new_node_indx@));
    }
    nodes.put(node_indx.clone(), parent);
    let ghost m1 = nodes.map();
    assert(m1 == edit(m, node_indx@, with_child(new_node_indx@)));
    let level = if len == 0 { cur_node.branch_level } else { cur_node.branch_level + 1 };
    let node = Node {
        children: Vec::new(),
        branch_level: level,
        fen: vfen,
        san: san,
        parent_indx: node_indx,
        nag: String::new(),
        start_comment: String::new(),
        comment: String::new(),
    };
    assert(node.model().children =~= Seq::<Seq<char>>::empty());
    nodes.put(new_node_indx.clone(), node);
    Some((new_node_indx, true))
}

/// Why a move made on the board is refused.
#[derive(PartialEq, Eq, Structural, Debug)]
pub enum MoveRefusal {
    /// No piece stands on the square the move starts from.
    NoPiece,
    /// The move is not legal.
    BadMove,
}

/// The UCI text of the move of the piece `p` (as `piece_text` writes it)
/// from `from` to `to`: with the promotion piece `prom` when a pawn reaches
/// the last rank.
pub open spec fn drag_uci(p: Seq<char>, from: Seq<char>, to: Seq<char>, prom: Seq<char>) -> Seq<char> {
    if (p == seq!['P'] || p == seq!['p']) && to.len() == 2 && (to[1] == '8' || to[1] == '1') {
        from + to + prom
    } else {
        from + to
    }
}

/// A move from `from` to `to` in the position of the FEN `f`, with the
/// attack tables `t`: the FEN after it and its SAN; refused when no piece
/// stands on `from` or the move is not legal; None when the FEN cannot be
/// read or its move counters cannot be counted on.
pub open spec fn board_drag(f: Seq<char>, from: Seq<char>, to: Seq<char>, prom: Seq<char>, t: AttackTables) -> Option<
    Result<(Seq<char>, Seq<char>), MoveRefusal>,
> {
    if fen_ok(f) && exists|b: Board| #[trigger] fen_setup(b, f, t) {
        let b = choose|b: Board| #[trigger] fen_setup(b, f, t);
        let sq = square_named(from, 0);
        let p = if sq < 64 { piece_text(b.square@[sq]) } else { seq!['N', 'o', 'n', 'e'] };
        if p == seq!['N', 'o', 'n', 'e'] {
            Some(Err(MoveRefusal::NoPiece))
        } else if b.fifty_move >= i32::MAX - 1 || b.full_moves >= i32::MAX - 1 {
            None
        } else {
            let legal = legal_moves(b);
            let i = find_uci(legal, drag_uci(p, from, to, prom), 0);
            if i < legal.len() && legal[i].move_int != 0 {
                let m = legal[i];
                Some(
                    Ok(
                        (
                            fen_of(squares_after_make(b.square@, m), b.next_move ^ 1u8, cw_after(b.castle_white, m),
                                cb_after(b.castle_black, m), ep_after(m), fifty_after(b.fifty_move, m), full_after(
                                b.full_moves, m)),
                            san_disambig_chars(b, m),
                        ),
                    ),
                )
            } else {
                Some(Err(MoveRefusal::BadMove))
            }
        }
    } else {
        None
    }
}

/// A move made on the board: the piece on `from` goes to `to` in the
/// position of `current_fen` (see `board_drag`), promoting to `prom` when a
/// pawn reaches the last rank.  Returns the FEN after the move and its SAN,
/// for `xb_make_move`.
pub fn xb_board_move(current_fen: &str, from: &str, to: &str, prom: &str) -> (r: Option<
    Result<(String, String), MoveRefusal>,
>)
    ensures
        exists|t: AttackTables| #[trigger] t.wf() && match r {
            None => board_drag(current_fen@, from@, to@, prom@, t) is None,
            Some(Err(e)) => board_drag(current_fen@, from@, to@, prom@, t) == Some(
                Err::<(Seq<char>, Seq<char>), MoveRefusal>(e),
            ),
            Some(Ok((f, s))) => board_drag(current_fen@, from@, to@, prom@, t) == Some(
                Ok::<(Seq<char>, Seq<char>), MoveRefusal>((f@, s@)),
            ),
        },
{
    let mut b = new_board();
    let ghost t = b.tables;
    assert(t.wf());
    if !crate::fen::fen_valid(current_fen) {
        return None;
    }
    b.setup_fen(current_fen.to_owned());
    let ghost g1 = b;
    let ghost f = current_fen@;
    assert(fen_setup(g1, f, t));
    let ghost bb = choose|bb: Board| #[trigger] fen_setup(bb, f, t);
    proof {
        lemma_wf_unique(g1, bb);
        lemma_legal_congruent(g1, bb);
    }
    let piece = get_piece_at_alphasquare(&mut b, from);
    let pv = chars_of(piece.as_str());
    let no_piece = pv.len() == 4 && pv[0] == 'N' && pv[1] == 'o' && pv[2] == 'n' && pv[3] == 'e';
    assert(no_piece == (pv@ == seq!['N', 'o', 'n', 'e'])) by {
        if no_piece { assert(pv@ =~= seq!['N', 'o', 'n', 'e']); }
    }
    if no_piece {
        return Some(Err(MoveRefusal::NoPiece));
    }
    if b.fifty_move >= i32::MAX - 1 || b.full_moves >= i32::MAX - 1 {
        return None;
    }
    let tv = chars_of(to);
    let is_pawn = pv.len() == 1 && (pv[0] == 'P' || pv[0] == 'p');
    assert(is_pawn == (pv@ == seq!['P'] || pv@ == seq!['p'])) by {
        if is_pawn { assert(pv@ =~= seq![pv@[0]]); }
    }
    let last_rank = tv.len() == 2 && (tv[1] == '8' || tv[1] == '1');
    let mut u = chars_of(from);
    crate::strutil::push_all(&mut u, &tv);
    if is_pawn && last_rank {
        let pr = chars_of(prom);
        crate::strutil::push_all(&mut u, &pr);
    }
    assert(u@ == drag_uci(pv@, from@, to@, prom@));
    let us = string_from_chars(&u);
    assert(can_make_two(g1));
    let lm = move_uci(&mut b, us.as_str());
    let ghost g2 = b;
    let ghost legal = legal_moves(g1);
    let ghost i = find_uci(legal, u@, 0);
    if lm.movim.move_int == 0 {
        assert(board_drag(f, from@, to@, prom@, t) == Some(Err::<(Seq<char>, Seq<char>), MoveRefusal>(
            MoveRefusal::BadMove)));
        return Some(Err(MoveRefusal::BadMove));
    }
    let fen = get_fen(&mut b);
    proof {
        lemma_san_congruent(g1, bb, legal[i]);
        assert(played(g1, legal[i], g2));
    }
    Some(Ok((fen, lm.san)))
}

/// The first child with the FEN `f`, from `i` on, in a tree where the
/// children before the new one `n` do not have it and `n` has it.
proof fn lemma_child_found(m2: Map<Seq<char>, NodeModel>, ch: Seq<Seq<char>>, n: Seq<char>, f: Seq<char>, i: int)
    requires
        0 <= i <= ch.len(),
        m2.contains_key(n),
        m2[n].fen == f,
        forall|j: int| i <= j < ch.len() && ch[j] != n ==> #[trigger] m2[ch[j]].fen != f,
    ensures
        child_with_fen(m2, ch.push(n), i, f) == Some(n),
    decreases ch.len() - i,
{
    if i < ch.len() {
        assert(ch.push(n)[i] == ch[i]);
        if ch[i] != n {
            lemma_child_found(m2, ch, n, f, i + 1);
        }
    } else {
        assert(ch.push(n)[i] == n);
    }
}

proof fn lemma_no_child(m: Map<Seq<char>, NodeModel>, ch: Seq<Seq<char>>, f: Seq<char>, i: int)
    requires
        0 <= i <= ch.len(),
        child_with_fen(m, ch, i, f) is None,
    ensures
        forall|j: int| i <= j < ch.len() ==> #[trigger] m[ch[j]].fen != f,
    decreases ch.len() - i,
{
    if i < ch.len() {
        lemma_no_child(m, ch, f, i + 1);
    }
}

/// Making the same move twice from a node adds one node: the second time
/// the node added the first time is selected, and the tree stays as it is.
pub proof fn law_same_move_twice(m: Map<Seq<char>, NodeModel>, k: Seq<char>, f: Seq<char>, san: Seq<char>)
    requires
        m.contains_key(k),
        match moved_to(m, k, f, san) {
            Some((_m2, _n, added)) => added,
            None => false,
        },
    ensures
        match moved_to(m, k, f, san) {
            Some((m2, n, _added)) => moved_to(m2, k, f, san) == Some((m2, n, false)),
            None => false,
        },
{
    let ch = m[k].children;
    let n = sibling_index(k, ch.len() as int)->0;
    let m1 = edit(m, k, with_child(n));
    let r = moved_to(m, k, f, san)->0;
    let (m2, _n2, _a) = r;
    assert(child_with_fen(m, ch, 0, f) is None);
    lemma_no_child(m, ch, f, 0);
    assert(m2.contains_key(n) && m2[n].fen == f);
    assert(m2.contains_key(k));
    assert(n != k) by {
        if ch.len() == 0 {
            crate::levels::lemma_next_differs(k);
        } else {
            assert(n.len() > k.len());
        }
    }
    assert(m2[k].children == ch.push(n));
    assert forall|j: int| 0 <= j < ch.len() && ch[j] != n implies #[trigger] m2[ch[j]].fen != f by {
        assert(m[ch[j]].fen != f);
        if ch[j] == k {
            assert(m2[ch[j]].fen == m[k].fen);
        }
    }
    lemma_child_found(m2, ch, n, f, 0);
}

}
