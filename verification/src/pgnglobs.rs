use vstd::prelude::*;
use std::collections::HashMap;
use crate::globs::DEFAULT_POSITION;

verus! {

// The data of the game editor: the tags of a game, the game as PGN, and the
// move tree, whose nodes are kept by their index text (see `levels`).

/// The PGN of a game with no moves and empty tags.
pub const EMPTY_GAME: &'static str = "[Event \"None\"]\n[Site \" \"]\n[Date \" \"]\n[Round \" \"]\n[White \" \"]\n[Black \" \"]\n[Result \" \"]\n[ECO \" \"]\n[WhiteElo \" \"]\n[BlackElo \" \"]\n[PlyCount \" \"]\n[EventDate \" \"]\n";

pub struct GameInfo {
    pub white: String,
    pub elow: String,
    pub black: String,
    pub elob: String,
    pub res: String,
    pub event: String,
    pub site: String,
    pub round: String,
    pub date: String,
    pub fen: String,
    pub eco: String,
    pub tags: Vec<String>,
}

impl GameInfo {
    /// Empty tags, the initial position and ECO "000".
    pub fn new() -> (g: Self)
        ensures
            g.white@ == Seq::<char>::empty() && g.elow@ == Seq::<char>::empty(),
            g.black@ == Seq::<char>::empty() && g.elob@ == Seq::<char>::empty(),
            g.res@ == Seq::<char>::empty() && g.event@ == Seq::<char>::empty(),
            g.site@ == Seq::<char>::empty() && g.round@ == Seq::<char>::empty(),
            g.date@ == Seq::<char>::empty(),
            g.fen@ == DEFAULT_POSITION@,
            g.eco@ == "000"@,
            g.tags@ == Seq::<String>::empty(),
    {
        GameInfo {
            white: String::new(),
            elow: String::new(),
            black: String::new(),
            elob: String::new(),
            res: String::new(),
            event: String::new(),
            site: String::new(),
            round: String::new(),
            date: String::new(),
            fen: DEFAULT_POSITION.to_owned(),
            eco: "000".to_owned(),
            tags: Vec::new(),
        }
    }
}

pub struct DbEntry {
    pub id: u64,
    pub game_info: GameInfo,
    pub pgn: String,
}

impl DbEntry {
    /// Entry 1: a new game, with the PGN of an empty game.
    pub fn new() -> (e: Self)
        ensures
            e.id == 1,
            e.game_info.fen@ == DEFAULT_POSITION@,
            e.game_info.eco@ == "000"@,
            e.game_info.white@ == Seq::<char>::empty(),
            e.game_info.tags@ == Seq::<String>::empty(),
            e.pgn@ == EMPTY_GAME@,
    {
        DbEntry { id: 1, game_info: GameInfo::new(), pgn: EMPTY_GAME.to_owned() }
    }
}

pub struct PgnGame {
    pub white: String,
    pub elow: String,
    pub black: String,
    pub elob: String,
    pub res: String,
    pub event: String,
    pub site: String,
    pub round: String,
    pub date: String,
    pub fen: String,
    pub eco: String,
    pub moves: String,
    pub tags: Vec<String>,
}

impl PgnGame {
    /// Empty tags and moves, the initial position and ECO "000".
    pub fn new() -> (g: Self)
        ensures
            g.white@ == Seq::<char>::empty() && g.elow@ == Seq::<char>::empty(),
            g.black@ == Seq::<char>::empty() && g.elob@ == Seq::<char>::empty(),
            g.res@ == Seq::<char>::empty() && g.event@ == Seq::<char>::empty(),
            g.site@ == Seq::<char>::empty() && g.round@ == Seq::<char>::empty(),
            g.date@ == Seq::<char>::empty(),
            g.fen@ == DEFAULT_POSITION@,
            g.eco@ == "000"@,
            g.moves@ == Seq::<char>::empty(),
            g.tags@ == Seq::<String>::empty(),
    {
        PgnGame {
            white: String::new(),
            elow: String::new(),
            black: String::new(),
            elob: String::new(),
            res: String::new(),
            event: String::new(),
            site: String::new(),
            round: String::new(),
            date: String::new(),
            fen: DEFAULT_POSITION.to_owned(),
            eco: "000".to_owned(),
            moves: String::new(),
            tags: Vec::new(),
        }
    }
}

/// A node of the move tree: the move (SAN) that leads to it, the position
/// after it, its comments and NAG, its parent and children by index.
pub struct Node {
    pub children: Vec<String>,
    pub branch_level: i32,
    pub fen: String,
    pub san: String,
    pub parent_indx: String,
    pub nag: String,
    pub start_comment: String,
    pub comment: String,
}

impl Node {
    pub open spec fn is_blank(self) -> bool {
        &&& self.children@ == Seq::<String>::empty()
        &&& self.branch_level == 0
        &&& self.fen@ == Seq::<char>::empty()
        &&& self.san@ == Seq::<char>::empty()
        &&& self.parent_indx@ == Seq::<char>::empty()
        &&& self.nag@ == Seq::<char>::empty()
        &&& self.start_comment@ == Seq::<char>::empty()
        &&& self.comment@ == Seq::<char>::empty()
    }

    pub fn new() -> (n: Self)
        ensures
            n.is_blank(),
    {
        Node {
            children: Vec::new(),
            branch_level: 0,
            fen: String::new(),
            san: String::new(),
            parent_indx: String::new(),
            nag: String::new(),
            start_comment: String::new(),
            comment: String::new(),
        }
    }
}

/// The nodes of a game by their index text, each index once.
pub struct ListNodes {
    pub nodes: Vec<(String, Node)>,
}

/// The position of the node with index `k` from `i` on, or the length.
pub open spec fn node_pos(s: Seq<(String, Node)>, k: Seq<char>, i: int) -> int
    decreases s.len() - i,
{
    if i < 0 || i >= s.len() {
        s.len() as int
    } else if s[i].0@ == k {
        i
    } else {
        node_pos(s, k, i + 1)
    }
}

proof fn lemma_node_pos(s: Seq<(String, Node)>, k: Seq<char>, i: int)
    requires
        0 <= i <= s.len(),
    ensures
        i <= node_pos(s, k, i) <= s.len(),
        node_pos(s, k, i) < s.len() ==> s[node_pos(s, k, i)].0@ == k,
        forall|j: int| i <= j < node_pos(s, k, i) ==> s[j].0@ != k,
    decreases s.len() - i,
{
    if i < s.len() && s[i].0@ != k {
        lemma_node_pos(s, k, i + 1);
    }
}

proof fn lemma_node_pos_at(s: Seq<(String, Node)>, k: Seq<char>, i: int)
    requires
        0 <= i < s.len(),
        s[i].0@ == k,
        forall|j: int| 0 <= j < i ==> s[j].0@ != k,
    ensures
        node_pos(s, k, 0) == i,
{
    lemma_node_pos(s, k, 0);
    let p = node_pos(s, k, 0);
    if p < i {
        assert(s[p].0@ != k);
    }
}

impl ListNodes {
    /// Each index names one node.
    pub open spec fn wf(self) -> bool {
        forall|i: int, j: int| 0 <= i < j < self.nodes.len() ==> self.nodes[i].0@ != self.nodes[j].0@
    }

    /// Where the node with index `k` is kept.
    pub open spec fn pos(self, k: Seq<char>) -> int {
        node_pos(self.nodes@, k, 0)
    }

    pub open spec fn has(self, k: Seq<char>) -> bool {
        self.pos(k) < self.nodes.len()
    }

    pub fn new() -> (l: Self)
        ensures
            l.wf(),
            l.nodes@ == Seq::<(String, Node)>::empty(),
    {
        ListNodes { nodes: Vec::new() }
    }

    fn find(&self, idx: &String) -> (r: usize)
        ensures
            r == self.pos(idx@),
            r <= self.nodes.len(),
            r < self.nodes.len() ==> self.nodes[r as int].0@ == idx@,
    {
        proof { lemma_node_pos(self.nodes@, idx@, 0); }
        let mut i: usize = 0;
        while i < self.nodes.len()
            invariant
                i <= self.nodes.len(),
                node_pos(self.nodes@, idx@, i as int) == self.pos(idx@),
            decreases self.nodes.len() - i,
        {
            if self.nodes[i].0 == *idx {
                return i;
            }
            i = i + 1;
        }
        i
    }

    pub fn node_exists(&mut self, idx: String) -> (r: bool)
        ensures
            r == old(self).has(idx@),
            final(self).nodes@ == old(self).nodes@,
    {
        let i = self.find(&idx);
        i < self.nodes.len()
    }

    /// Takes the node at position `i` out and puts `entry` in its place.
    fn replace_at(&mut self, i: usize, entry: (String, Node)) -> (old_entry: (String, Node))
        requires
            i < old(self).nodes.len(),
        ensures
            old_entry == old(self).nodes@[i as int],
            final(self).nodes@ == old(self).nodes@.update(i as int, entry),
    {
        let e = self.nodes.remove(i);
        self.nodes.insert(i, entry);
        assert(self.nodes@ =~= old(self).nodes@.update(i as int, entry));
        e
    }

    /// A blank node under index `idx`, in place of one already there.
    pub fn init_node(&mut self, idx: String)
        requires
            old(self).wf(),
        ensures
            final(self).wf(),
            final(self).has(idx@),
            final(self).nodes@[final(self).pos(idx@)].1.is_blank(),
            final(self).nodes@[final(self).pos(idx@)].0@ == idx@,
            old(self).has(idx@) ==> final(self).nodes@ == old(self).nodes@.update(old(self).pos(idx@),
                final(self).nodes@[old(self).pos(idx@)]),
            !old(self).has(idx@) ==> final(self).nodes@ == old(self).nodes@.push(final(self).nodes@.last()),
    {
        let i = self.find(&idx);
        proof { lemma_node_pos(self.nodes@, idx@, 0); }
        if i < self.nodes.len() {
            let ghost k = idx@;
            let _ = self.replace_at(i, (idx, Node::new()));
            assert forall|j: int| 0 <= j < i implies self.nodes@[j].0@ != k by {
                assert(self.nodes@[j] == old(self).nodes@[j]);
            }
            proof { lemma_node_pos_at(self.nodes@, k, i as int); }
            assert forall|a: int, b: int| 0 <= a < b < self.nodes.len() implies self.nodes@[a].0@ != self.nodes@[b].0@ by {
                if a != i && b != i {
                    assert(self.nodes@[a] == old(self).nodes@[a]);
                    assert(self.nodes@[b] == old(self).nodes@[b]);
                } else if a == i {
                    assert(self.nodes@[b] == old(self).nodes@[b]);
                } else {
                    assert(self.nodes@[a] == old(self).nodes@[a]);
                }
            }
        } else {
            let ghost k = idx@;
            self.nodes.push((idx, Node::new()));
            assert forall|j: int| 0 <= j < i implies self.nodes@[j].0@ != k by {
                assert(self.nodes@[j] == old(self).nodes@[j]);
            }
            proof { lemma_node_pos_at(self.nodes@, k, i as int); }
            assert forall|a: int, b: int| 0 <= a < b < self.nodes.len() implies self.nodes@[a].0@ != self.nodes@[b].0@ by {
                assert(self.nodes@[a] == old(self).nodes@[a]);
                if b < i {
                    assert(self.nodes@[b] == old(self).nodes@[b]);
                }
            }
        }
    }
}

/// A change to one field of a node.
pub enum NodeChange {
    BranchLevel(i32),
    NoChildren,
    Fen(String),
    Parent(String),
    Nag(String),
    StartComment(String),
    Comment(String),
    San(String),
    AddChild(String),
}

/// The node with the change made.
pub open spec fn changed(n: Node, c: NodeChange) -> Node {
    match c {
        NodeChange::BranchLevel(v) => Node { branch_level: v, ..n },
        NodeChange::NoChildren => n,
        NodeChange::Fen(s) => Node { fen: s, ..n },
        NodeChange::Parent(s) => Node { parent_indx: s, ..n },
        NodeChange::Nag(s) => Node { nag: s, ..n },
        NodeChange::StartComment(s) => Node { start_comment: s, ..n },
        NodeChange::Comment(s) => Node { comment: s, ..n },
        NodeChange::San(s) => Node { san: s, ..n },
        NodeChange::AddChild(s) => n,
    }
}

/// What a change leaves in a node: the new node agrees with `changed`, or
/// for a new child, has it appended.
pub open spec fn change_done(old_n: Node, c: NodeChange, new_n: Node) -> bool {
    match c {
        NodeChange::NoChildren => {
            &&& new_n.children@ == Seq::<String>::empty()
            &&& new_n.branch_level == old_n.branch_level && new_n.fen == old_n.fen && new_n.san == old_n.san
            &&& new_n.parent_indx == old_n.parent_indx && new_n.nag == old_n.nag
            &&& new_n.start_comment == old_n.start_comment && new_n.comment == old_n.comment
        },
        NodeChange::AddChild(s) => {
            &&& new_n.children@ == old_n.children@.push(s)
            &&& new_n.branch_level == old_n.branch_level && new_n.fen == old_n.fen && new_n.san == old_n.san
            &&& new_n.parent_indx == old_n.parent_indx && new_n.nag == old_n.nag
            &&& new_n.start_comment == old_n.start_comment && new_n.comment == old_n.comment
        },
        _ => new_n == changed(old_n, c),
    }
}

/// The nodes after a change to the node with index `k`, if there is one.
pub open spec fn nodes_changed(old_l: ListNodes, k: Seq<char>, c: NodeChange, new_l: ListNodes) -> bool {
    let p = old_l.pos(k);
    if old_l.has(k) {
        &&& new_l.nodes.len() == old_l.nodes.len()
        &&& forall|j: int| 0 <= j < old_l.nodes.len() && j != p ==> #[trigger] new_l.nodes@[j] == old_l.nodes@[j]
        &&& new_l.nodes@[p].0 == old_l.nodes@[p].0
        &&& change_done(old_l.nodes@[p].1, c, new_l.nodes@[p].1)
    } else {
        new_l.nodes@ == old_l.nodes@
    }
}

fn apply_change(n: Node, c: NodeChange) -> (r: Node)
    ensures
        change_done(n, c, r),
{
    let mut n = n;
    match c {
        NodeChange::BranchLevel(v) => { n.branch_level = v; },
        NodeChange::NoChildren => { n.children = Vec::new(); },
        NodeChange::Fen(s) => { n.fen = s; },
        NodeChange::Parent(s) => { n.parent_indx = s; },
        NodeChange::Nag(s) => { n.nag = s; },
        NodeChange::StartComment(s) => { n.start_comment = s; },
        NodeChange::Comment(s) => { n.comment = s; },
        NodeChange::San(s) => { n.san = s; },
        NodeChange::AddChild(s) => { n.children.push(s); },
    }
    n
}

impl ListNodes {
    /// Makes the change to the node with index `idx`; nothing when there is none.
    fn change(&mut self, idx: String, c: NodeChange)
        ensures
            nodes_changed(*old(self), idx@, c, *final(self)),
            old(self).wf() ==> final(self).wf(),
    {
        let i = self.find(&idx);
        if i < self.nodes.len() {
            let (k, n) = self.replace_at(i, (String::new(), Node::new()));
            let n2 = apply_change(n, c);
            let _ = self.replace_at(i, (k, n2));
            proof {
                if old(self).wf() {
                    assert forall|a: int, b: int| 0 <= a < b < self.nodes.len() implies self.nodes@[a].0@
                        != self.nodes@[b].0@ by {
                        assert(self.nodes@[a].0 == old(self).nodes@[a].0);
                        assert(self.nodes@[b].0 == old(self).nodes@[b].0);
                    }
                }
            }
        }
    }

    pub fn init_branch_level(&mut self, idx: String, value: i32)
        ensures
            nodes_changed(*old(self), idx@, NodeChange::BranchLevel(value), *final(self)),
            old(self).wf() ==> final(self).wf(),
    {
        self.change(idx, NodeChange::BranchLevel(value));
    }

    pub fn init_children(&mut self, idx: String)
        ensures
            nodes_changed(*old(self), idx@, NodeChange::NoChildren, *final(self)),
            old(self).wf() ==> final(self).wf(),
    {
        self.change(idx, NodeChange::NoChildren);
    }

    pub fn init_fen(&mut self, idx: String, fen: String)
        ensures
            nodes_changed(*old(self), idx@, NodeChange::Fen(fen), *final(self)),
            old(self).wf() ==> final(self).wf(),
    {
        self.change(idx, NodeChange::Fen(fen));
    }

    pub fn set_parent_indx(&mut self, idx: String, parent: String)
        ensures
            nodes_changed(*old(self), idx@, NodeChange::Parent(parent), *final(self)),
            old(self).wf() ==> final(self).wf(),
    {
        self.change(idx, NodeChange::Parent(parent));
    }

    pub fn set_branch_level(&mut self, idx: String, level: i32)
        ensures
            nodes_changed(*old(self), idx@, NodeChange::BranchLevel(level), *final(self)),
            old(self).wf() ==> final(self).wf(),
    {
        self.change(idx, NodeChange::BranchLevel(level));
    }

    pub fn set_nag(&mut self, idx: String, nag: String)
        ensures
            nodes_changed(*old(self), idx@, NodeChange::Nag(nag), *final(self)),
            old(self).wf() ==> final(self).wf(),
    {
        self.change(idx, NodeChange::Nag(nag));
    }

    pub fn set_start_comment(&mut self, idx: String, comment: String)
        ensures
            nodes_changed(*old(self), idx@, NodeChange::StartComment(comment), *final(self)),
            old(self).wf() ==> final(self).wf(),
    {
        self.change(idx, NodeChange::StartComment(comment));
    }

    pub fn set_comment(&mut self, idx: String, comment: String)
        ensures
            nodes_changed(*old(self), idx@, NodeChange::Comment(comment), *final(self)),
            old(self).wf() ==> final(self).wf(),
    {
        self.change(idx, NodeChange::Comment(comment));
    }

    pub fn set_san(&mut self, idx: String, san: String)
        ensures
            nodes_changed(*old(self), idx@, NodeChange::San(san), *final(self)),
            old(self).wf() ==> final(self).wf(),
    {
        self.change(idx, NodeChange::San(san));
    }

    pub fn set_fen(&mut self, idx: String, fen: String)
        ensures
            nodes_changed(*old(self), idx@, NodeChange::Fen(fen), *final(self)),
            old(self).wf() ==> final(self).wf(),
    {
        self.change(idx, NodeChange::Fen(fen));
    }

    pub fn push_children(&mut self, idx: String, child_idx: String)
        ensures
            nodes_changed(*old(self), idx@, NodeChange::AddChild(child_idx), *final(self)),
            old(self).wf() ==> final(self).wf(),
    {
        self.change(idx, NodeChange::AddChild(child_idx));
    }

    /// The FEN of the node with index `idx`; empty when there is none.
    pub fn get_fen(&mut self, idx: String) -> (r: String)
        ensures
            r@ == (if old(self).has(idx@) { old(self).nodes@[old(self).pos(idx@)].1.fen@ } else { Seq::<char>::empty() }),
            final(self).nodes@ == old(self).nodes@,
    {
        let i = self.find(&idx);
        if i < self.nodes.len() { self.nodes[i].1.fen.clone() } else { String::new() }
    }

    /// The parent index of the node with index `idx`; empty when there is none.
    pub fn get_parent_indx(&mut self, idx: String, _parent_idx: String) -> (r: String)
        ensures
            r@ == (if old(self).has(idx@) { old(self).nodes@[old(self).pos(idx@)].1.parent_indx@ } else {
                Seq::<char>::empty()
            }),
            final(self).nodes@ == old(self).nodes@,
    {
        let i = self.find(&idx);
        if i < self.nodes.len() { self.nodes[i].1.parent_indx.clone() } else { String::new() }
    }

    /// The number of children of the node with index `idx`; 0 when there is none.
    pub fn get_children_length(&mut self, idx: String) -> (r: i32)
        ensures
            r == (if old(self).has(idx@) { old(self).nodes@[old(self).pos(idx@)].1.children.len() as i32 } else {
                0i32
            }),
            final(self).nodes@ == old(self).nodes@,
    {
        let i = self.find(&idx);
        if i < self.nodes.len() {
            #[verifier::truncate]
            let n = self.nodes[i].1.children.len() as i32;
            n
        } else {
            0
        }
    }

    /// The comment before the move of the node with index `idx`; empty when there is none.
    pub fn get_start_comment(&mut self, idx: String) -> (r: String)
        ensures
            r@ == (if old(self).has(idx@) { old(self).nodes@[old(self).pos(idx@)].1.start_comment@ } else {
                Seq::<char>::empty()
            }),
            final(self).nodes@ == old(self).nodes@,
    {
        let i = self.find(&idx);
        if i < self.nodes.len() { self.nodes[i].1.start_comment.clone() } else { String::new() }
    }
}

pub struct BranchIndexNodes {
    pub branch_index: HashMap<i32, String>,
}

impl BranchIndexNodes {
    pub fn new() -> (b: Self)
        ensures
            b.branch_index@ == Map::<i32, String>::empty(),
    {
        BranchIndexNodes { branch_index: HashMap::new() }
    }

    pub fn set_indx_value(&mut self, idx: i32, value: String)
        ensures
            final(self).branch_index@ == old(self).branch_index@.insert(idx, value),
    {
        broadcast use vstd::std_specs::hash::group_hash_axioms;
        self.branch_index.insert(idx, value);
    }
}


/// A node as values: children, branch level, FEN, SAN, parent index, NAG,
/// comment before the move, comment after it.
pub struct NodeModel {
    pub children: Seq<Seq<char>>,
    pub branch_level: int,
    pub fen: Seq<char>,
    pub san: Seq<char>,
    pub parent: Seq<char>,
    pub nag: Seq<char>,
    pub start_comment: Seq<char>,
    pub comment: Seq<char>,
}

/// A node with nothing in it.
pub open spec fn blank_model() -> NodeModel {
    NodeModel {
        children: seq![],
        branch_level: 0,
        fen: seq![],
        san: seq![],
        parent: seq![],
        nag: seq![],
        start_comment: seq![],
        comment: seq![],
    }
}

impl Node {
    pub open spec fn model(self) -> NodeModel {
        NodeModel {
            children: self.children@.map_values(|s: String| s@),
            branch_level: self.branch_level as int,
            fen: self.fen@,
            san: self.san@,
            parent: self.parent_indx@,
            nag: self.nag@,
            start_comment: self.start_comment@,
            comment: self.comment@,
        }
    }
}

/// The node after a change.
pub open spec fn model_changed(n: NodeModel, c: NodeChange) -> NodeModel {
    match c {
        NodeChange::BranchLevel(v) => NodeModel { branch_level: v as int, ..n },
        NodeChange::NoChildren => NodeModel { children: seq![], ..n },
        NodeChange::Fen(s) => NodeModel { fen: s@, ..n },
        NodeChange::Parent(s) => NodeModel { parent: s@, ..n },
        NodeChange::Nag(s) => NodeModel { nag: s@, ..n },
        NodeChange::StartComment(s) => NodeModel { start_comment: s@, ..n },
        NodeChange::Comment(s) => NodeModel { comment: s@, ..n },
        NodeChange::San(s) => NodeModel { san: s@, ..n },
        NodeChange::AddChild(s) => NodeModel { children: n.children.push(s@), ..n },
    }
}

impl ListNodes {
    /// The nodes by index text.
    pub open spec fn map(self) -> Map<Seq<char>, NodeModel> {
        Map::new(|k: Seq<char>| self.has(k), |k: Seq<char>| self.nodes@[self.pos(k)].1.model())
    }
}

/// Where the node with index `k` is, when the indices are distinct.
pub proof fn lemma_pos_of(l: ListNodes, k: Seq<char>, i: int)
    requires
        l.wf(),
        0 <= i < l.nodes.len(),
        l.nodes@[i].0@ == k,
    ensures
        l.pos(k) == i,
        l.has(k),
{
    lemma_node_pos(l.nodes@, k, 0);
    let p = l.pos(k);
    if p < i {
        assert(l.nodes@[p].0@ == k);
    }
}

/// A key that is found is at its position.
pub proof fn lemma_has(l: ListNodes, k: Seq<char>)
    ensures
        l.has(k) ==> l.nodes@[l.pos(k)].0@ == k && 0 <= l.pos(k),
        !l.has(k) ==> forall|j: int| 0 <= j < l.nodes.len() ==> l.nodes@[j].0@ != k,
{
    lemma_node_pos(l.nodes@, k, 0);
}

/// What a change does to the map of nodes.
pub proof fn lemma_change_map(old_l: ListNodes, k: Seq<char>, c: NodeChange, new_l: ListNodes)
    requires
        old_l.wf(),
        new_l.wf(),
        nodes_changed(old_l, k, c, new_l),
    ensures
        new_l.map() == (if old_l.has(k) { old_l.map().insert(k, model_changed(old_l.map()[k], c)) } else {
            old_l.map()
        }),
{
    lemma_has(old_l, k);
    if old_l.has(k) {
        let p = old_l.pos(k);
        assert forall|q: Seq<char>| #[trigger] new_l.has(q) == old_l.has(q) by {
            lemma_has(old_l, q);
            lemma_has(new_l, q);
            if old_l.has(q) {
                let i = old_l.pos(q);
                assert(new_l.nodes@[i].0 == old_l.nodes@[i].0);
                lemma_pos_of(new_l, q, i);
            }
            if new_l.has(q) {
                let i = new_l.pos(q);
                assert(new_l.nodes@[i].0 == old_l.nodes@[i].0);
                lemma_pos_of(old_l, q, i);
            }
        }
        assert forall|q: Seq<char>| new_l.has(q) implies #[trigger] new_l.pos(q) == old_l.pos(q) by {
            lemma_has(old_l, q);
            let i = old_l.pos(q);
            assert(new_l.nodes@[i].0 == old_l.nodes@[i].0);
            lemma_pos_of(new_l, q, i);
        }
        let n0 = old_l.nodes@[p].1;
        let n1 = new_l.nodes@[p].1;
        assert(n1.model() == model_changed(n0.model(), c)) by {
            match c {
                NodeChange::NoChildren => {
                    assert(n1.model().children =~= seq![]);
                },
                NodeChange::AddChild(s) => {
                    assert(n1.model().children =~= n0.model().children.push(s@));
                },
                _ => {},
            }
        }
        let target = old_l.map().insert(k, model_changed(old_l.map()[k], c));
        assert forall|q: Seq<char>| new_l.has(q) implies #[trigger] new_l.map()[q] == target[q] by {
            let i = old_l.pos(q);
            lemma_has(old_l, q);
            if q != k {
                assert(i != p);
                assert(new_l.nodes@[i] == old_l.nodes@[i]);
            }
        }
        assert(new_l.map() =~= target);
    } else {
        assert(new_l.map() =~= old_l.map());
    }
}

/// What `init_node` does to the map of nodes.
pub proof fn lemma_init_map(old_l: ListNodes, k: Seq<char>, new_l: ListNodes)
    requires
        old_l.wf(),
        new_l.wf(),
        new_l.has(k),
        new_l.nodes@[new_l.pos(k)].1.is_blank(),
        new_l.nodes@[new_l.pos(k)].0@ == k,
        old_l.has(k) ==> new_l.nodes@ == old_l.nodes@.update(old_l.pos(k), new_l.nodes@[old_l.pos(k)]),
        !old_l.has(k) ==> new_l.nodes@ == old_l.nodes@.push(new_l.nodes@.last()),
    ensures
        new_l.map() == old_l.map().insert(k, blank_model()),
{
    lemma_has(old_l, k);
    lemma_has(new_l, k);
    let nb = new_l.nodes@[new_l.pos(k)].1;
    assert(nb.model() == blank_model()) by {
        assert(nb.model().children =~= seq![]);
    }
    assert forall|q: Seq<char>| q != k implies #[trigger] new_l.has(q) == old_l.has(q) && (old_l.has(q)
        ==> new_l.pos(q) == old_l.pos(q)) by {
        lemma_has(old_l, q);
        lemma_has(new_l, q);
        if old_l.has(q) {
            let i = old_l.pos(q);
            assert(new_l.nodes@[i] == old_l.nodes@[i]) by {
                if old_l.has(k) {
                    assert(i != old_l.pos(k));
                }
            }
            lemma_pos_of(new_l, q, i);
        }
        if new_l.has(q) {
            let i = new_l.pos(q);
            if old_l.has(k) {
                assert(i != old_l.pos(k));
                assert(new_l.nodes@[i] == old_l.nodes@[i]);
                lemma_pos_of(old_l, q, i);
            } else {
                if i < old_l.nodes.len() {
                    assert(new_l.nodes@[i] == old_l.nodes@[i]);
                    lemma_pos_of(old_l, q, i);
                } else {
                    assert(new_l.nodes@[i].0@ == k) by {
                        assert(new_l.pos(k) == old_l.nodes.len()) by {
                            lemma_pos_of(new_l, new_l.nodes@[old_l.nodes.len() as int].0@, old_l.nodes.len() as int);
                        }
                    }
                }
            }
        }
    }
    let target = old_l.map().insert(k, blank_model());
    assert forall|q: Seq<char>| #[trigger] new_l.map().dom().contains(q) == target.dom().contains(q) by {
        if q != k {
            assert(new_l.has(q) == old_l.has(q));
        }
    }
    assert forall|q: Seq<char>| new_l.has(q) implies #[trigger] new_l.map()[q] == target[q] by {
        if q != k {
            assert(new_l.has(q) == old_l.has(q) && new_l.pos(q) == old_l.pos(q));
            let i = old_l.pos(q);
            lemma_has(old_l, q);
            if old_l.has(k) {
                assert(i != old_l.pos(k));
            }
            assert(new_l.nodes@[i] == old_l.nodes@[i]);
        }
    }
    assert(new_l.map() =~= target);
}


/// Adding a node under a new index adds it to the map.
pub proof fn lemma_push_map(old_l: ListNodes, e: (String, Node), new_l: ListNodes)
    requires
        old_l.wf(),
        !old_l.has(e.0@),
        new_l.nodes@ == old_l.nodes@.push(e),
    ensures
        new_l.wf(),
        new_l.map() == old_l.map().insert(e.0@, e.1.model()),
{
    lemma_has(old_l, e.0@);
    let n = old_l.nodes.len() as int;
    assert forall|a: int, b: int| 0 <= a < b < new_l.nodes.len() implies new_l.nodes@[a].0@ != new_l.nodes@[b].0@ by {
        assert(new_l.nodes@[a] == old_l.nodes@[a]);
        if b < n {
            assert(new_l.nodes@[b] == old_l.nodes@[b]);
        }
    }
    lemma_pos_of(new_l, e.0@, n);
    assert forall|q: Seq<char>| q != e.0@ implies #[trigger] new_l.has(q) == old_l.has(q) && (old_l.has(q)
        ==> new_l.pos(q) == old_l.pos(q)) by {
        lemma_has(old_l, q);
        lemma_has(new_l, q);
        if old_l.has(q) {
            let i = old_l.pos(q);
            assert(new_l.nodes@[i] == old_l.nodes@[i]);
            lemma_pos_of(new_l, q, i);
        }
        if new_l.has(q) {
            let i = new_l.pos(q);
            if i < n {
                assert(new_l.nodes@[i] == old_l.nodes@[i]);
                lemma_pos_of(old_l, q, i);
            }
        }
    }
    let target = old_l.map().insert(e.0@, e.1.model());
    assert forall|q: Seq<char>| #[trigger] new_l.map().dom().contains(q) == target.dom().contains(q) by {
        if q != e.0@ {
            assert(new_l.has(q) == old_l.has(q));
        }
    }
    assert forall|q: Seq<char>| new_l.has(q) implies #[trigger] new_l.map()[q] == target[q] by {
        if q != e.0@ {
            assert(new_l.has(q) == old_l.has(q) && new_l.pos(q) == old_l.pos(q));
            assert(new_l.nodes@[old_l.pos(q)] == old_l.nodes@[old_l.pos(q)]) by {
                lemma_has(old_l, q);
            }
        }
    }
    assert(new_l.map() =~= target);
}

/// The nodes that hold a move, and the root.
pub open spec fn with_moves(m: Map<Seq<char>, NodeModel>) -> Map<Seq<char>, NodeModel> {
    Map::new(|k: Seq<char>| m.contains_key(k) && (k == seq!['1', 'z'] || m[k].san.len() > 0), |k: Seq<char>| m[k])
}

/// Drops the nodes without a move, but the root.
pub fn keep_moves(l: ListNodes) -> (r: ListNodes)
    requires
        l.wf(),
    ensures
        r.wf(),
        r.map() == with_moves(l.map()),
{
    let ghost m = l.map();
    let ghost all = l.nodes@;
    let root = crate::levels::root_node();
    let mut rest = l.nodes;
    let mut out = ListNodes::new();
    proof {
        assert forall|q: Seq<char>| !(#[trigger] out.has(q)) by {
            lemma_has(out, q);
        }
    }
    while rest.len() > 0
        invariant
            rest.len() <= all.len(),
            rest@ == all.take(rest.len() as int),
            l.nodes@ == all,
            l.wf(),
            m == l.map(),
            root@ == seq!['1', 'z'],
            out.wf(),
            forall|q: Seq<char>| #[trigger] out.has(q) == (l.has(q) && l.pos(q) >= rest.len() && (q == seq!['1',
                'z'] || m[q].san.len() > 0)),
            forall|q: Seq<char>| out.has(q) ==> #[trigger] out.map()[q] == m[q],
        decreases rest.len(),
    {
        let ghost p = rest.len() - 1;
        let e = rest.pop().unwrap();
        assert(e == all[p]);
        proof {
            lemma_pos_of(l, e.0@, p);
        }
        let keep = e.0 == root || !e.1.san.as_str().is_empty();
        assert(keep == (e.0@ == seq!['1', 'z'] || m[e.0@].san.len() > 0));
        if keep {
            let ghost o0 = out;
            proof {
                if out.has(e.0@) {
                    assert(l.pos(e.0@) >= p + 1);
                }
            }
            out.nodes.push(e);
            proof {
                lemma_push_map(o0, e, out);
                assert forall|q: Seq<char>| #[trigger] out.has(q) == (q == e.0@ || o0.has(q)) by {
                    assert(out.map().dom().contains(q) == out.has(q));
                    assert(o0.map().dom().contains(q) == o0.has(q));
                }
                assert forall|q: Seq<char>| #[trigger] out.has(q) == (l.has(q) && l.pos(q) >= rest.len() && (q
                    == seq!['1', 'z'] || m[q].san.len() > 0)) by {
                    assert(out.has(q) == (q == e.0@ || o0.has(q)));
                    if q != e.0@ {
                        if l.has(q) && l.pos(q) == p {
                            lemma_has(l, q);
                        }
                    }
                }
                assert forall|q: Seq<char>| out.has(q) implies #[trigger] out.map()[q] == m[q] by {
                    assert(out.has(q) == (q == e.0@ || o0.has(q)));
                    assert(out.map()[q] == o0.map().insert(e.0@, e.1.model())[q]);
                    if q == e.0@ {
                        assert(m[q] == l.nodes@[l.pos(q)].1.model());
                    }
                }
            }
        } else {
            proof {
                assert forall|q: Seq<char>| #[trigger] out.has(q) == (l.has(q) && l.pos(q) >= rest.len() && (q
                    == seq!['1', 'z'] || m[q].san.len() > 0)) by {
                    if l.has(q) && l.pos(q) == p {
                        lemma_has(l, q);
                    }
                }
            }
        }
        assert(rest@ == all.take(rest.len() as int));
    }
    proof {
        assert forall|q: Seq<char>| #[trigger] out.map().dom().contains(q) == with_moves(m).dom().contains(q) by {
            lemma_has(l, q);
        }
        assert(out.map() =~= with_moves(m));
    }
    out
}


impl ListNodes {
    /// The node with index `idx`, if there is one.
    pub fn node_at(&self, idx: &String) -> (r: Option<&Node>)
        requires
            self.wf(),
        ensures
            match r {
                Some(n) => self.has(idx@) && n.model() == self.map()[idx@],
                None => !self.has(idx@),
            },
    {
        let i = self.find(idx);
        if i < self.nodes.len() {
            Some(&self.nodes[i].1)
        } else {
            None
        }
    }
}


/// Putting a node in place of the one at position `i`, under the same index,
/// sets that index in the map.
proof fn lemma_update_map(old_l: ListNodes, i: int, e: (String, Node), new_l: ListNodes)
    requires
        old_l.wf(),
        0 <= i < old_l.nodes.len(),
        old_l.nodes@[i].0@ == e.0@,
        new_l.nodes@ == old_l.nodes@.update(i, e),
    ensures
        new_l.wf(),
        new_l.map() == old_l.map().insert(e.0@, e.1.model()),
{
    assert forall|a: int, b: int| 0 <= a < b < new_l.nodes.len() implies new_l.nodes@[a].0@ != new_l.nodes@[b].0@ by {
        assert(new_l.nodes@[a].0@ == old_l.nodes@[a].0@);
        assert(new_l.nodes@[b].0@ == old_l.nodes@[b].0@);
    }
    let k = e.0@;
    lemma_pos_of(old_l, k, i);
    lemma_pos_of(new_l, k, i);
    assert forall|q: Seq<char>| q != k implies #[trigger] new_l.has(q) == old_l.has(q) && (old_l.has(q)
        ==> new_l.nodes@[new_l.pos(q)] == old_l.nodes@[old_l.pos(q)]) by {
        lemma_has(old_l, q);
        lemma_has(new_l, q);
        if old_l.has(q) {
            let j = old_l.pos(q);
            assert(j != i);
            assert(new_l.nodes@[j] == old_l.nodes@[j]);
            lemma_pos_of(new_l, q, j);
        }
        if new_l.has(q) {
            let j = new_l.pos(q);
            assert(j != i);
            assert(new_l.nodes@[j] == old_l.nodes@[j]);
            lemma_pos_of(old_l, q, j);
        }
    }
    let target = old_l.map().insert(k, e.1.model());
    assert forall|q: Seq<char>| #[trigger] new_l.map().dom().contains(q) == target.dom().contains(q) by {
        if q != k {
            assert(new_l.has(q) == old_l.has(q));
        }
    }
    assert forall|q: Seq<char>| new_l.has(q) implies #[trigger] new_l.map()[q] == target[q] by {
        if q != k {
            assert(new_l.has(q) == old_l.has(q));
        }
    }
    assert(new_l.map() =~= target);
}

/// Taking out the node at position `i` takes its index out of the map.
proof fn lemma_remove_map(old_l: ListNodes, i: int, new_l: ListNodes)
    requires
        old_l.wf(),
        0 <= i < old_l.nodes.len(),
        new_l.nodes@ == old_l.nodes@.remove(i),
    ensures
        new_l.wf(),
        new_l.map() == old_l.map().remove(old_l.nodes@[i].0@),
{
    let k = old_l.nodes@[i].0@;
    let n = old_l.nodes.len() as int;
    assert forall|a: int, b: int| 0 <= a < b < new_l.nodes.len() implies new_l.nodes@[a].0@ != new_l.nodes@[b].0@ by {
        let a2 = if a < i { a } else { a + 1 };
        let b2 = if b < i { b } else { b + 1 };
        assert(new_l.nodes@[a] == old_l.nodes@[a2]);
        assert(new_l.nodes@[b] == old_l.nodes@[b2]);
    }
    assert forall|q: Seq<char>| q != k implies #[trigger] new_l.has(q) == old_l.has(q) && (old_l.has(q)
        ==> new_l.nodes@[new_l.pos(q)] == old_l.nodes@[old_l.pos(q)]) by {
        lemma_has(old_l, q);
        lemma_has(new_l, q);
        if old_l.has(q) {
            let j = old_l.pos(q);
            assert(j != i);
            let j2 = if j < i { j } else { j - 1 };
            assert(new_l.nodes@[j2] == old_l.nodes@[j]);
            lemma_pos_of(new_l, q, j2);
        }
        if new_l.has(q) {
            let j = new_l.pos(q);
            let j2 = if j < i { j } else { j + 1 };
            assert(new_l.nodes@[j] == old_l.nodes@[j2]);
            lemma_pos_of(old_l, q, j2);
        }
    }
    assert forall|q: Seq<char>| q == k implies !#[trigger] new_l.has(q) by {
        lemma_has(new_l, q);
        if new_l.has(q) {
            let j = new_l.pos(q);
            let j2 = if j < i { j } else { j + 1 };
            assert(new_l.nodes@[j] == old_l.nodes@[j2]);
            assert(j2 != i);
        }
    }
    let target = old_l.map().remove(k);
    assert forall|q: Seq<char>| #[trigger] new_l.map().dom().contains(q) == target.dom().contains(q) by {
        if q != k {
            assert(new_l.has(q) == old_l.has(q));
        }
    }
    assert forall|q: Seq<char>| new_l.has(q) implies #[trigger] new_l.map()[q] == target[q] by {
        assert(q != k);
        assert(new_l.has(q) == old_l.has(q));
    }
    assert(new_l.map() =~= target);
}

/// A copy of the texts of a list.
pub fn copy_names(v: &Vec<String>) -> (r: Vec<String>)
    ensures
        r@.map_values(|s: String| s@) == v@.map_values(|s: String| s@),
{
    let mut r: Vec<String> = Vec::new();
    let mut i: usize = 0;
    while i < v.len()
        invariant
            i <= v.len(),
            r.len() == i,
            forall|j: int| 0 <= j < i ==> (#[trigger] r@[j])@ == v@[j]@,
        decreases v.len() - i,
    {
        r.push(v[i].clone());
        i = i + 1;
    }
    assert(r@.map_values(|s: String| s@) =~= v@.map_values(|s: String| s@));
    r
}

impl Node {
    /// A copy of the node.
    pub fn copy(&self) -> (r: Node)
        ensures
            r.model() == self.model(),
    {
        Node {
            children: copy_names(&self.children),
            branch_level: self.branch_level,
            fen: self.fen.clone(),
            san: self.san.clone(),
            parent_indx: self.parent_indx.clone(),
            nag: self.nag.clone(),
            start_comment: self.start_comment.clone(),
            comment: self.comment.clone(),
        }
    }
}

impl ListNodes {
    /// Puts `n` under the index `k`, in place of the node there if any.
    pub fn put(&mut self, k: String, n: Node)
        requires
            old(self).wf(),
        ensures
            final(self).wf(),
            final(self).map() == old(self).map().insert(k@, n.model()),
    {
        let i = self.find(&k);
        proof { lemma_has(*self, k@); }
        if i < self.nodes.len() {
            let ghost l0 = *self;
            let ghost e = (k, n);
            let _ = self.replace_at(i, (k, n));
            proof { lemma_update_map(l0, i as int, e, *self); }
        } else {
            let ghost l0 = *self;
            let ghost e = (k, n);
            self.nodes.push((k, n));
            proof { lemma_push_map(l0, e, *self); }
        }
    }

    /// Takes the node with index `k` out, if there is one.
    pub fn remove_node(&mut self, k: &String)
        requires
            old(self).wf(),
        ensures
            final(self).wf(),
            final(self).map() == old(self).map().remove(k@),
    {
        let i = self.find(k);
        proof { lemma_has(*self, k@); }
        if i < self.nodes.len() {
            let ghost l0 = *self;
            let _ = self.nodes.remove(i);
            proof { lemma_remove_map(l0, i as int, *self); }
        } else {
            assert(self.map() =~= self.map().remove(k@));
        }
    }
}

impl ListNodes {
    /// A copy of the nodes.
    pub fn copy(&self) -> (r: ListNodes)
        requires
            self.wf(),
        ensures
            r.wf(),
            r.map() == self.map(),
    {
        let ghost m = self.map();
        let mut r = ListNodes::new();
        assert(r.map() =~= m.restrict(Set::empty())) by {
            assert forall|q: Seq<char>| !(#[trigger] r.has(q)) by { lemma_has(r, q); }
        }
        let mut i: usize = 0;
        while i < self.nodes.len()
            invariant
                self.wf(),
                m == self.map(),
                i <= self.nodes.len(),
                r.wf(),
                r.map() == m.restrict(Set::new(|q: Seq<char>| exists|j: int| 0 <= j < i && #[trigger] self.nodes@[j].0@ == q)),
            decreases self.nodes.len() - i,
        {
            let ghost before = Set::new(|q: Seq<char>| exists|j: int| 0 <= j < i && #[trigger] self.nodes@[j].0@ == q);
            let ghost after = Set::new(|q: Seq<char>| exists|j: int| 0 <= j < i + 1 && #[trigger] self.nodes@[j].0@ == q);
            let k = self.nodes[i].0.clone();
            let n = self.nodes[i].1.copy();
            proof { lemma_pos_of(*self, k@, i as int); }
            r.put(k, n);
            proof {
                assert forall|q: Seq<char>| #[trigger] after.contains(q) == (before.contains(q) || q == k@) by {
                    if q == k@ { assert(self.nodes@[i as int].0@ == q); }
                    if after.contains(q) {
                        let j = choose|j: int| 0 <= j < i + 1 && #[trigger] self.nodes@[j].0@ == q;
                        if j < i { assert(before.contains(q)); }
                    }
                }
                assert(r.map() =~= m.restrict(after));
            }
            i = i + 1;
        }
        proof {
            let all = Set::new(|q: Seq<char>| exists|j: int| 0 <= j < i && #[trigger] self.nodes@[j].0@ == q);
            assert forall|q: Seq<char>| #[trigger] m.dom().contains(q) implies all.contains(q) by {
                lemma_has(*self, q);
                assert(self.nodes@[self.pos(q)].0@ == q);
            }
            assert(r.map() =~= m);
        }
        r
    }
}

/// A list with more than one node has two different indices in its map.
pub proof fn lemma_two_nodes(l: ListNodes)
    requires
        l.wf(),
    ensures
        (l.nodes.len() > 1) == (exists|a: Seq<char>, b: Seq<char>| a != b && #[trigger] l.map().contains_key(a)
            && #[trigger] l.map().contains_key(b)),
{
    if l.nodes.len() > 1 {
        let a = l.nodes@[0].0@;
        let b = l.nodes@[1].0@;
        lemma_pos_of(l, a, 0);
        lemma_pos_of(l, b, 1);
        assert(l.map().contains_key(a) && l.map().contains_key(b));
    }
    if exists|a: Seq<char>, b: Seq<char>| a != b && #[trigger] l.map().contains_key(a) && #[trigger] l.map().contains_key(b) {
        let (a, b) = choose|a: Seq<char>, b: Seq<char>| a != b && #[trigger] l.map().contains_key(a) && #[trigger] l.map().contains_key(b);
        lemma_has(l, a);
        lemma_has(l, b);
        assert(l.pos(a) != l.pos(b));
    }
}

/// Setting a field of a node and reading the node back gives the value
/// set, and leaves the other nodes as they were: here for the FEN, which
/// the reader sets and reads for every move.
pub proof fn law_set_then_read_fen(l0: ListNodes, k: Seq<char>, f: String, l1: ListNodes)
    requires
        l0.wf(),
        l1.wf(),
        nodes_changed(l0, k, NodeChange::Fen(f), l1),
        l0.has(k),
    ensures
        l1.has(k),
        l1.map()[k].fen == f@,
        forall|q: Seq<char>| q != k ==> #[trigger] l1.map().contains_key(q) == l0.map().contains_key(q),
        forall|q: Seq<char>| q != k && l0.map().contains_key(q) ==> #[trigger] l1.map()[q] == l0.map()[q],
{
    lemma_change_map(l0, k, NodeChange::Fen(f), l1);
    assert(l1.map().contains_key(k));
}

}
