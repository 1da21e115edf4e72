use vstd::prelude::*;
use crate::fen::is_digit;
use crate::levels::{next_mainline, mainline_ok, mainline_ok_exec, get_next_mainline_indx, root_node};
use crate::pgnglobs::{ListNodes, NodeModel};
use crate::sanmove::is_ascii_text;
use crate::strutil::{chars_of, string_from_chars};

verus! {

// Moving through the game with the buttons under the board: the node each
// button selects from the active one.

/// The node the "previous" button selects from `cur`: its parent, but not
/// from the first move of a variation ("...1n") nor back to the root.
pub open spec fn prev_target(m: Map<Seq<char>, NodeModel>, cur: Seq<char>) -> Option<Seq<char>> {
    let prev = m[cur].parent;
    if cur.subrange(cur.len() - 2, cur.len() as int) == seq!['1', 'n'] || prev == seq!['1', 'z'] {
        None
    } else {
        Some(prev)
    }
}

/// The node the "previous" button selects (see `prev_target`); None when
/// it selects none.
pub fn btn_prev_node(nodes: &ListNodes, cur_node: &String) -> (r: Option<String>)
    requires
        nodes.wf(),
        nodes.map().contains_key(cur_node@),
        is_ascii_text(cur_node@),
        cur_node@.len() >= 2,
    ensures
        match r {
            Some(x) => prev_target(nodes.map(), cur_node@) == Some(x@),
            None => prev_target(nodes.map(), cur_node@) is None,
        },
{
    let node = match nodes.node_at(cur_node) {
        None => { return None; },
        Some(x) => x,
    };
    let prev = node.parent_indx.clone();
    let c = chars_of(cur_node.as_str());
    let n = c.len();
    let ends_1n = c[n - 2] == '1' && c[n - 1] == 'n';
    assert(ends_1n == (cur_node@.subrange(n - 2, n as int) == seq!['1', 'n'])) by {
        if ends_1n { assert(cur_node@.subrange(n - 2, n as int) =~= seq!['1', 'n']); }
        if cur_node@.subrange(n - 2, n as int) == seq!['1', 'n'] {
            assert(cur_node@.subrange(n - 2, n as int)[0] == c@[n - 2]);
            assert(cur_node@.subrange(n - 2, n as int)[1] == c@[n - 1]);
        }
    }
    let root = root_node();
    if ends_1n || prev == root {
        return None;
    }
    Some(prev)
}

/// The node the "next" button selects from `cur`: the next move of its
/// line when that is its only child, else its first child; none when the
/// next move of its line is not in the tree.
pub open spec fn next_target(m: Map<Seq<char>, NodeModel>, cur: Seq<char>) -> Option<Seq<char>> {
    let nx = next_mainline(cur);
    if !m.contains_key(nx) {
        None
    } else if m[cur].children.len() == 1 {
        Some(nx)
    } else {
        Some(m[cur].children[0])
    }
}

/// The node the "next" button selects (see `next_target`).
pub fn btn_next_node(nodes: &ListNodes, cur_node: &String) -> (r: Option<String>)
    requires
        nodes.wf(),
        nodes.map().contains_key(cur_node@),
        mainline_ok(cur_node@),
        nodes.map()[cur_node@].children.len() == 0 ==> !nodes.map().contains_key(next_mainline(cur_node@)),
    ensures
        match r {
            Some(x) => next_target(nodes.map(), cur_node@) == Some(x@),
            None => next_target(nodes.map(), cur_node@) is None,
        },
{
    let next = get_next_mainline_indx(cur_node.clone());
    if nodes.node_at(&next).is_none() {
        return None;
    }
    let node = match nodes.node_at(cur_node) {
        None => { return None; },
        Some(x) => x,
    };
    if node.children.len() == 1 {
        Some(next)
    } else {
        assert(node.children@.map_values(|s: String| s@)[0] == node.children@[0]@);
        Some(node.children[0].clone())
    }
}

/// The index text has an "n" in it.
pub open spec fn has_n(s: Seq<char>) -> bool {
    s.contains('n')
}

/// Going up from `cur` to the first move of its variation (see
/// `first_target`), at most `fuel` steps; None when a node is missing, an
/// index is empty or not ASCII, or the steps run out.
pub open spec fn first_loop(m: Map<Seq<char>, NodeModel>, cur: Seq<char>, fuel: nat) -> Option<Seq<char>>
    decreases fuel,
{
    if !(cur.len() > 2 && has_n(cur)) {
        Some(cur)
    } else if fuel == 0 || !m.contains_key(cur) {
        None
    } else {
        let f = m[cur].parent;
        if f.len() == 0 || !is_ascii_text(f) {
            None
        } else if f.last() == 'n' {
            Some(f)
        } else if f.len() > 2 && is_digit(f[f.len() - 3]) {
            if !m.contains_key(f) { None } else { first_loop(m, m[f].parent, (fuel - 1) as nat) }
        } else {
            first_loop(m, f, (fuel - 1) as nat)
        }
    }
}

/// The node the "first" button selects from `cur`: on the main line the
/// first move ("2z"); in a variation, going up, the first move of it.
pub open spec fn first_target(m: Map<Seq<char>, NodeModel>, cur: Seq<char>, fuel: nat) -> Option<Seq<char>> {
    let c0 = if cur.last() == 'z' && !has_n(cur) { seq!['1', 'z'] } else { cur };
    match first_loop(m, c0, fuel) {
        None => None,
        Some(c) => Some(if c == seq!['1', 'z'] { seq!['2', 'z'] } else { c }),
    }
}

fn has_n_exec(v: &Vec<char>) -> (r: bool)
    ensures
        r == has_n(v@),
{
    let mut i: usize = 0;
    while i < v.len()
        invariant
            i <= v.len(),
            forall|j: int| 0 <= j < i ==> v@[j] != 'n',
        decreases v.len() - i,
    {
        if v[i] == 'n' {
            return true;
        }
        i = i + 1;
    }
    false
}

/// The node the "first" button selects (see `first_target`, with the
/// number of nodes as the bound).
pub fn btn_first_node(nodes: &ListNodes, cur_node: &String) -> (r: Option<String>)
    requires
        nodes.wf(),
        cur_node@.len() >= 1,
    ensures
        match r {
            Some(x) => first_target(nodes.map(), cur_node@, nodes.nodes.len() as nat) == Some(x@),
            None => first_target(nodes.map(), cur_node@, nodes.nodes.len() as nat) is None,
        },
{
    let ghost m = nodes.map();
    let fuel = nodes.nodes.len();
    let c = chars_of(cur_node.as_str());
    let mut cur: Vec<char> = if c[c.len() - 1] == 'z' && !has_n_exec(&c) {
        let mut v: Vec<char> = Vec::new();
        v.push('1');
        v.push('z');
        v
    } else {
        c
    };
    let ghost c0 = cur@;
    assert(c0 == (if cur_node@.last() == 'z' && !has_n(cur_node@) { seq!['1', 'z'] } else { cur_node@ }));
    let mut steps: usize = 0;
    while cur.len() > 2 && has_n_exec(&cur)
        invariant
            nodes.wf(),
            m == nodes.map(),
            steps <= fuel,
            fuel == nodes.nodes.len(),
            first_loop(m, c0, fuel as nat) == first_loop(m, cur@, (fuel - steps) as nat),
            first_target(m, cur_node@, fuel as nat) == match first_loop(m, c0, fuel as nat) {
                None => None,
                Some(c) => Some(if c == seq!['1', 'z'] { seq!['2', 'z'] } else { c }),
            },
        decreases fuel - steps,
    {
        if steps == fuel {
            assert(first_loop(m, cur@, (fuel - steps) as nat) is None);
            return None;
        }
        let cs = string_from_chars(&cur);
        let node = match nodes.node_at(&cs) {
            None => { return None; },
            Some(x) => x,
        };
        let f = chars_of(node.parent_indx.as_str());
        if f.len() == 0 || !crate::sanmove::ascii_exec(&f) {
            return None;
        }
        if f[f.len() - 1] == 'n' {
            cur = f;
            let ghost cf = cur@;
            assert(first_loop(m, c0, fuel as nat) == Some(cf));
            return finish_first(cur, Ghost(m), Ghost(first_loop(m, c0, fuel as nat)));
        }
        if f.len() > 2 && '0' <= f[f.len() - 3] && f[f.len() - 3] <= '9' {
            let fs = string_from_chars(&f);
            let fnode = match nodes.node_at(&fs) {
                None => { return None; },
                Some(x) => x,
            };
            cur = chars_of(fnode.parent_indx.as_str());
        } else {
            cur = f;
        }
        steps = steps + 1;
    }
    finish_first(cur, Ghost(m), Ghost(first_loop(m, c0, fuel as nat)))
}

/// The last step of `btn_first_node`: the root becomes the first move.
fn finish_first(cur: Vec<char>, Ghost(m): Ghost<Map<Seq<char>, NodeModel>>, Ghost(found): Ghost<Option<Seq<char>>>)
    -> (r: Option<String>)
    requires
        found == Some(cur@),
    ensures
        r is Some,
        r->0@ == (if cur@ == seq!['1', 'z'] { seq!['2', 'z'] } else { cur@ }),
{
    let is_root = cur.len() == 2 && cur[0] == '1' && cur[1] == 'z';
    assert(is_root == (cur@ == seq!['1', 'z'])) by {
        if is_root { assert(cur@ =~= seq!['1', 'z']); }
    }
    if is_root {
        let mut v: Vec<char> = Vec::new();
        v.push('2');
        v.push('z');
        assert(v@ =~= seq!['2', 'z']);
        Some(string_from_chars(&v))
    } else {
        Some(string_from_chars(&cur))
    }
}

/// Going up from `cur` to the first move of its variation before the
/// variation is deleted (see `delete_target`), at most `fuel` steps: as
/// `first_loop`, but a node that already ends in "n" is the first move.
pub open spec fn delete_loop(m: Map<Seq<char>, NodeModel>, cur: Seq<char>, fuel: nat) -> Option<Seq<char>>
    decreases fuel,
{
    if !(cur.len() > 2 && has_n(cur)) || cur.last() == 'n' {
        Some(cur)
    } else if fuel == 0 || !m.contains_key(cur) {
        None
    } else {
        let f = m[cur].parent;
        if f.len() == 0 || !is_ascii_text(f) {
            None
        } else if f.last() == 'n' {
            Some(f)
        } else if f.len() > 2 && is_digit(f[f.len() - 3]) {
            if !m.contains_key(f) { None } else { delete_loop(m, m[f].parent, (fuel - 1) as nat) }
        } else {
            delete_loop(m, f, (fuel - 1) as nat)
        }
    }
}

/// The node the "delete variation" button goes to first, the first move of
/// the variation of `cur`: on the main line the first move ("2z"); in a
/// variation, going up, the node whose index ends in "n".
pub open spec fn delete_target(m: Map<Seq<char>, NodeModel>, cur: Seq<char>, fuel: nat) -> Option<Seq<char>> {
    let c0 = if cur.last() == 'z' && !has_n(cur) { seq!['1', 'z'] } else { cur };
    match delete_loop(m, c0, fuel) {
        None => None,
        Some(c) => Some(if c == seq!['1', 'z'] { seq!['2', 'z'] } else { c }),
    }
}

/// The first move of the variation to delete (see `delete_target`, with
/// the number of nodes as the bound).
pub fn variation_start(nodes: &ListNodes, cur_node: &String) -> (r: Option<String>)
    requires
        nodes.wf(),
        cur_node@.len() >= 1,
    ensures
        match r {
            Some(x) => delete_target(nodes.map(), cur_node@, nodes.nodes.len() as nat) == Some(x@),
            None => delete_target(nodes.map(), cur_node@, nodes.nodes.len() as nat) is None,
        },
{
    let ghost m = nodes.map();
    let fuel = nodes.nodes.len();
    let c = chars_of(cur_node.as_str());
    let mut cur: Vec<char> = if c[c.len() - 1] == 'z' && !has_n_exec(&c) {
        let mut v: Vec<char> = Vec::new();
        v.push('1');
        v.push('z');
        v
    } else {
        c
    };
    let ghost c0 = cur@;
    assert(c0 == (if cur_node@.last() == 'z' && !has_n(cur_node@) { seq!['1', 'z'] } else { cur_node@ }));
    let mut steps: usize = 0;
    while cur.len() > 2 && has_n_exec(&cur) && cur[cur.len() - 1] != 'n'
        invariant
            nodes.wf(),
            m == nodes.map(),
            steps <= fuel,
            fuel == nodes.nodes.len(),
            delete_loop(m, c0, fuel as nat) == delete_loop(m, cur@, (fuel - steps) as nat),
            delete_target(m, cur_node@, fuel as nat) == match delete_loop(m, c0, fuel as nat) {
                None => None,
                Some(c) => Some(if c == seq!['1', 'z'] { seq!['2', 'z'] } else { c }),
            },
        decreases fuel - steps,
    {
        if steps == fuel {
            assert(delete_loop(m, cur@, (fuel - steps) as nat) is None);
            return None;
        }
        let cs = string_from_chars(&cur);
        let node = match nodes.node_at(&cs) {
            None => { return None; },
            Some(x) => x,
        };
        let f = chars_of(node.parent_indx.as_str());
        if f.len() == 0 || !crate::sanmove::ascii_exec(&f) {
            return None;
        }
        if f[f.len() - 1] == 'n' {
            cur = f;
            let ghost cf = cur@;
            assert(delete_loop(m, c0, fuel as nat) == Some(cf));
            return finish_first(cur, Ghost(m), Ghost(delete_loop(m, c0, fuel as nat)));
        }
        if f.len() > 2 && '0' <= f[f.len() - 3] && f[f.len() - 3] <= '9' {
            let fs = string_from_chars(&f);
            let fnode = match nodes.node_at(&fs) {
                None => { return None; },
                Some(x) => x,
            };
            cur = chars_of(fnode.parent_indx.as_str());
        } else {
            cur = f;
        }
        steps = steps + 1;
    }
    finish_first(cur, Ghost(m), Ghost(delete_loop(m, c0, fuel as nat)))
}

/// Going down from `next` (with `cur` the node reached) to the end of the
/// line (see `last_target`), at most `fuel` steps.
pub open spec fn last_loop(m: Map<Seq<char>, NodeModel>, next: Seq<char>, cur: Seq<char>, fuel: nat) -> Option<Seq<char>>
    decreases fuel,
{
    if !m.contains_key(next) {
        Some(cur)
    } else if fuel == 0 {
        None
    } else if m[next].children.len() == 1 {
        if !mainline_ok(next) {
            None
        } else {
            last_loop(m, next_mainline(next), next_mainline(next), (fuel - 1) as nat)
        }
    } else if m[next].children.len() < 1 {
        Some(cur)
    } else {
        last_loop(m, m[next].children[0], m[next].children[0], (fuel - 1) as nat)
    }
}

/// The node the "last" button selects from `cur`: following the next moves
/// (the first child where there are several) to the end of the line.
pub open spec fn last_target(m: Map<Seq<char>, NodeModel>, cur: Seq<char>, fuel: nat) -> Option<Seq<char>> {
    if !mainline_ok(cur) { None } else { last_loop(m, next_mainline(cur), cur, fuel) }
}

/// The node the "last" button selects (see `last_target`, with the number
/// of nodes as the bound).
pub fn btn_last_node(nodes: &ListNodes, cur_node: &String) -> (r: Option<String>)
    requires
        nodes.wf(),
    ensures
        match r {
            Some(x) => last_target(nodes.map(), cur_node@, nodes.nodes.len() as nat) == Some(x@),
            None => last_target(nodes.map(), cur_node@, nodes.nodes.len() as nat) is None,
        },
{
    let ghost m = nodes.map();
    let fuel = nodes.nodes.len();
    if !mainline_ok_exec(cur_node) {
        return None;
    }
    let mut cur = cur_node.clone();
    let mut next = get_next_mainline_indx(cur_node.clone());
    let mut steps: usize = 0;
    loop
        invariant
            nodes.wf(),
            m == nodes.map(),
            steps <= fuel,
            fuel == nodes.nodes.len(),
            last_target(m, cur_node@, fuel as nat) == last_loop(m, next@, cur@, (fuel - steps) as nat),
        decreases fuel - steps,
    {
        let node = match nodes.node_at(&next) {
            None => { return Some(cur); },
            Some(x) => x,
        };
        if steps == fuel {
            return None;
        }
        if node.children.len() == 1 {
            if !mainline_ok_exec(&next) {
                return None;
            }
            next = get_next_mainline_indx(next);
            cur = next.clone();
        } else if node.children.len() < 1 {
            return Some(cur);
        } else {
            assert(node.children@.map_values(|s: String| s@)[0] == node.children@[0]@);
            next = node.children[0].clone();
            cur = next.clone();
        }
        steps = steps + 1;
    }
}

}
