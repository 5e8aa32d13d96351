//! The proof graph: statements, their implication links, and the propagation
//! of proven-ness from premises to conclusions.
use generational_arena::Arena;
use vstd::prelude::*;
use vstd::set_lib::lemma_set_subset_finite;

use vstd::string::StringExecFns;

use crate::adjudicator::{decimal, push_decimal};
use crate::messages::{snapshot_of, StatementDTO, TreeStateDTO};
use crate::propagation::{
    closed_down, closed_up, law_settled_graph_is_left_alone, lemma_link, lemma_lower,
    lemma_push_contains, lemma_raise, lemma_remove, lemma_restate_structure, lemma_self_link,
    lemma_settled_wf, lemma_step_down, lemma_step_up, lemma_unlink, overstated, proven_justified,
    proven_set, same_but_verdicts, settled_down, settled_up, structure_wf, understated,
    unproven_justified, unproven_set, with_state,
};
use crate::seqs::{lemma_remove_all, remove_all};
use crate::arena::{
    arena_contains, arena_generation, arena_get, arena_get_mut, arena_ids, arena_insert,
    arena_new, arena_nodes, arena_remove, NodeId,
};

verus! {

/// What the adjudicator last said of a statement.
#[derive(Clone, Copy, Debug, PartialEq, Eq, Structural)]
pub enum ProofState {
    /// Accepted as true by itself.
    DirectlyProven,
    /// Never accepted, or no longer.
    Unproven,
    /// Accepted as following from its premises, which are not all proven.
    ImpliedUnproven,
    /// Accepted as following from its premises, which are all proven.
    ImpliedProven,
}

impl ProofState {
    pub open spec fn proven(self) -> bool {
        self is DirectlyProven || self is ImpliedProven
    }

    pub open spec fn implied(self) -> bool {
        self is ImpliedUnproven || self is ImpliedProven
    }

    pub fn is_proven(&self) -> (r: bool)
        ensures
            r == self.proven(),
    {
        match self {
            ProofState::DirectlyProven => true,
            ProofState::ImpliedProven => true,
            _ => false,
        }
    }

    pub fn is_implied(&self) -> (r: bool)
        ensures
            r == self.implied(),
    {
        match self {
            ProofState::ImpliedProven => true,
            ProofState::ImpliedUnproven => true,
            _ => false,
        }
    }
}

/// The mathematical content of one statement node.
pub struct NodeView {
    pub text: Seq<char>,
    pub state: ProofState,
    /// Nodes that have this one as a premise.
    pub parents: Seq<NodeId>,
    /// This node's premises.
    pub children: Seq<NodeId>,
}

pub struct StatementNode {
    statement: String,
    children: Vec<NodeId>,
    parents: Vec<NodeId>,
    state: ProofState,
}

impl View for StatementNode {
    type V = NodeView;

    closed spec fn view(&self) -> NodeView {
        NodeView {
            text: self.statement@,
            state: self.state,
            parents: self.parents@,
            children: self.children@,
        }
    }
}

pub open spec fn fresh_node(text: Seq<char>) -> NodeView {
    NodeView { text, state: ProofState::Unproven, parents: Seq::empty(), children: Seq::empty() }
}

impl StatementNode {
    fn new(statement: String) -> (r: StatementNode)
        ensures
            r@ == fresh_node(statement@),
    {
        StatementNode {
            statement,
            children: Vec::new(),
            parents: Vec::new(),
            state: ProofState::Unproven,
        }
    }
}

/// The graph as a map from handles to nodes.
pub type Graph = Map<NodeId, NodeView>;

pub open spec fn empty_graph() -> Graph {
    Map::empty()
}

pub open spec fn proven(g: Graph, n: NodeId) -> bool {
    g[n].state.proven()
}

pub open spec fn implied(g: Graph, n: NodeId) -> bool {
    g[n].state.implied()
}

/// Every premise of `n` is proven.
pub open spec fn all_children_proven(g: Graph, n: NodeId) -> bool {
    forall|c: NodeId| #[trigger] g[n].children.contains(c) ==> proven(g, c)
}

/// Every edge end is a live node.
pub open spec fn edges_closed(g: Graph) -> bool {
    forall|a: NodeId, b: NodeId|
        #![trigger g[a].children.contains(b)]
        #![trigger g[a].parents.contains(b)]
        g.dom().contains(a) && (g[a].children.contains(b) || g[a].parents.contains(b))
            ==> g.dom().contains(b)
}

/// `b` is a premise of `a` exactly when `a` is a parent of `b`.
pub open spec fn edges_symmetric(g: Graph) -> bool {
    forall|a: NodeId, b: NodeId|
        #![trigger g[a].children.contains(b)]
        #![trigger g[b].parents.contains(a)]
        g.dom().contains(a) && g.dom().contains(b) ==> (g[a].children.contains(b)
            <==> g[b].parents.contains(a))
}

/// A node in an implied state is proven exactly when all its premises are.
pub open spec fn implications_hold(g: Graph) -> bool {
    forall|n: NodeId|
        #![trigger g[n].state]
        g.dom().contains(n) && implied(g, n) ==> (proven(g, n) <==> all_children_proven(g, n))
}

pub open spec fn graph_wf(g: Graph) -> bool {
    &&& g.dom().finite()
    &&& edges_closed(g)
    &&& edges_symmetric(g)
    &&& implications_hold(g)
}

/// The graph after the text of `id` is replaced, which takes back any verdict on it.
pub open spec fn edited(g: Graph, id: NodeId, text: Seq<char>) -> Graph {
    g.insert(id, NodeView { text, state: ProofState::Unproven, ..g[id] })
}

/// The graph after `child` becomes a premise of `parent`.
pub open spec fn linked(g: Graph, parent: NodeId, child: NodeId) -> Graph {
    if parent == child {
        g.insert(
            parent,
            NodeView {
                parents: g[parent].parents.push(parent),
                children: g[parent].children.push(parent),
                ..g[parent]
            },
        )
    } else {
        g.insert(parent, NodeView { children: g[parent].children.push(child), ..g[parent] }).insert(
            child,
            NodeView { parents: g[child].parents.push(parent), ..g[child] },
        )
    }
}

/// The state that a node keeps when one of its premises goes away: an
/// implication verdict lapses.
pub open spec fn lapsed(state: ProofState) -> ProofState {
    if state.implied() {
        ProofState::Unproven
    } else {
        state
    }
}

/// The graph after `child` stops being a premise of `parent`.
pub open spec fn unlinked(g: Graph, parent: NodeId, child: NodeId) -> Graph {
    if parent == child {
        g.insert(
            parent,
            NodeView {
                state: lapsed(g[parent].state),
                parents: remove_all(g[parent].parents, parent),
                children: remove_all(g[parent].children, parent),
                ..g[parent]
            },
        )
    } else {
        g.insert(
            parent,
            NodeView {
                state: lapsed(g[parent].state),
                children: remove_all(g[parent].children, child),
                ..g[parent]
            },
        ).insert(child, NodeView { parents: remove_all(g[child].parents, parent), ..g[child] })
    }
}

/// A node that loses `x` from its edges; it loses its verdict if `x` was one
/// of its premises.
pub open spec fn detached(v: NodeView, x: NodeId) -> NodeView {
    NodeView {
        text: v.text,
        state: if v.children.contains(x) {
            lapsed(v.state)
        } else {
            v.state
        },
        parents: remove_all(v.parents, x),
        children: remove_all(v.children, x),
    }
}

/// The graph after node `x` and every edge at it are removed.
pub open spec fn removed(g: Graph, x: NodeId) -> Graph {
    Map::new(|n: NodeId| g.dom().contains(n) && n != x, |n: NodeId| detached(g[n], x))
}

/// The graph after the adjudicator accepts `id` by itself.
pub open spec fn proven_directly(g: Graph, id: NodeId) -> Graph {
    g.insert(id, with_state(g[id], ProofState::DirectlyProven))
}

/// The graph after the adjudicator accepts `id` as following from its premises.
pub open spec fn proven_by_implication(g: Graph, id: NodeId) -> Graph {
    g.insert(
        id,
        with_state(
            g[id],
            if all_children_proven(g, id) {
                ProofState::ImpliedProven
            } else {
                ProofState::ImpliedUnproven
            },
        ),
    )
}

/// Why a graph operation was refused; the graph is left as it was.
#[derive(Clone, Copy, Debug, PartialEq, Eq, Structural)]
pub enum ProofError {
    NoSuchNode(NodeId),
    RemoveRoot,
    AddExistingLink { child: NodeId, parent: NodeId },
    RemoveNonExistentLink { child: NodeId, parent: NodeId },
}

/// How a handle reads in an error message.
pub open spec fn handle_text(id: NodeId) -> Seq<char> {
    "Index { index: "@ + decimal(id.index as nat) + ", generation: "@ + decimal(
        id.generation as nat,
    ) + " }"@
}

/// What an error says in words.
pub open spec fn error_text(e: ProofError) -> Seq<char> {
    match e {
        ProofError::NoSuchNode(i) => "No node with index "@ + handle_text(i) + "."@,
        ProofError::RemoveRoot => "Tried to remove the root node."@,
        ProofError::AddExistingLink { child, parent } => "Tried to add an existing link from "@
            + handle_text(child) + " to "@ + handle_text(parent) + "."@,
        ProofError::RemoveNonExistentLink { child, parent } =>
            "Tried to remove a non-existent link from "@ + handle_text(child) + " to "@
            + handle_text(parent) + "."@,
    }
}

fn push_handle(m: &mut String, id: NodeId)
    ensures
        final(m)@ == old(m)@ + handle_text(id),
{
    m.append("Index { index: ");
    push_decimal(m, id.index as u128);
    m.append(", generation: ");
    push_decimal(m, id.generation as u128);
    m.append(" }");
}

impl ProofError {
    /// The error in words.
    pub fn message(&self) -> (r: String)
        ensures
            r@ == error_text(*self),
    {
        match *self {
            ProofError::NoSuchNode(i) => {
                let mut m = String::from_str("No node with index ");
                push_handle(&mut m, i);
                m.append(".");
                m
            },
            ProofError::RemoveRoot => String::from_str("Tried to remove the root node."),
            ProofError::AddExistingLink { child, parent } => {
                let mut m = String::from_str("Tried to add an existing link from ");
                push_handle(&mut m, child);
                m.append(" to ");
                push_handle(&mut m, parent);
                m.append(".");
                m
            },
            ProofError::RemoveNonExistentLink { child, parent } => {
                let mut m = String::from_str("Tried to remove a non-existent link from ");
                push_handle(&mut m, child);
                m.append(" to ");
                push_handle(&mut m, parent);
                m.append(".");
                m
            },
        }
    }
}

/// Appends `src` to `dst`.
fn append_ids(dst: &mut Vec<NodeId>, src: &Vec<NodeId>)
    ensures
        final(dst)@ == old(dst)@ + src@,
{
    let mut i: usize = 0;
    while i < src.len()
        invariant
            i <= src@.len(),
            dst@ == old(dst)@ + src@.subrange(0, i as int),
        decreases src.len() - i,
    {
        dst.push(src[i]);
        i += 1;
        assert(dst@ =~= old(dst)@ + src@.subrange(0, i as int));
    }
    assert(src@.subrange(0, i as int) =~= src@);
}

/// Whether `x` occurs in `v`.
fn contains_id(v: &Vec<NodeId>, x: NodeId) -> (r: bool)
    ensures
        r == v@.contains(x),
{
    let mut i: usize = 0;
    while i < v.len()
        invariant
            i <= v@.len(),
            forall|j: int| 0 <= j < i ==> v@[j] != x,
        decreases v.len() - i,
    {
        if v[i] == x {
            return true;
        }
        i += 1;
    }
    false
}

/// `v` without any occurrence of `x`.
fn without(v: &Vec<NodeId>, x: NodeId) -> (r: Vec<NodeId>)
    ensures
        r@ == remove_all(v@, x),
{
    let mut r: Vec<NodeId> = Vec::new();
    let mut i: usize = 0;
    while i < v.len()
        invariant
            i <= v@.len(),
            r@ == remove_all(v@.subrange(0, i as int), x),
        decreases v.len() - i,
    {
        assert(v@.subrange(0, i + 1).drop_last() =~= v@.subrange(0, i as int));
        if v[i] != x {
            r.push(v[i]);
        }
        i += 1;
    }
    assert(v@.subrange(0, i as int) =~= v@);
    r
}

/// What `link` answers on a graph.
pub open spec fn link_outcome(g: Graph, parent: NodeId, child: NodeId) -> Result<(), ProofError> {
    if !g.contains_key(parent) {
        Err(ProofError::NoSuchNode(parent))
    } else if !g.contains_key(child) {
        Err(ProofError::NoSuchNode(child))
    } else if parent != child && g[parent].children.contains(child) {
        Err(ProofError::AddExistingLink { child, parent })
    } else {
        Ok(())
    }
}

/// What `unlink` answers on a graph.
pub open spec fn unlink_outcome(g: Graph, parent: NodeId, child: NodeId) -> Result<(), ProofError> {
    if !g.contains_key(parent) {
        Err(ProofError::NoSuchNode(parent))
    } else if !g.contains_key(child) {
        Err(ProofError::NoSuchNode(child))
    } else if parent != child && !g[parent].children.contains(child) {
        Err(ProofError::RemoveNonExistentLink { child, parent })
    } else {
        Ok(())
    }
}

/// What `remove_node` answers on a tree.
pub open spec fn remove_outcome(t: TreeView, id: NodeId) -> Result<(), ProofError> {
    if id == t.root {
        Err(ProofError::RemoveRoot)
    } else if !t.nodes.contains_key(id) {
        Err(ProofError::NoSuchNode(id))
    } else {
        Ok(())
    }
}

/// The texts of the premises of `id`, in order.
pub open spec fn premise_texts(g: Graph, id: NodeId) -> Seq<Seq<char>> {
    g[id].children.map_values(|c: NodeId| g[c].text)
}

/// After every operation, an implied node is proven exactly when all its
/// premises are: every operation keeps the tree well formed, and a well
/// formed tree has this property.
pub proof fn law_implied_follows_premises(t: TreeState, n: NodeId)
    requires
        t.wf(),
        t@.nodes.contains_key(n),
        implied(t@.nodes, n),
    ensures
        proven(t@.nodes, n) == all_children_proven(t@.nodes, n),
{
    t.lemma_wf();
}

/// After every operation, `b` is a premise of `a` exactly when `a` is a
/// parent of `b`, and every edge joins live nodes.
pub proof fn law_edges_symmetric(t: TreeState, a: NodeId, b: NodeId)
    requires
        t.wf(),
        t@.nodes.contains_key(a),
    ensures
        t@.nodes[a].children.contains(b) <==> t@.nodes.contains_key(b) && t@.nodes[b].parents.contains(a),
        t@.nodes[a].parents.contains(b) <==> t@.nodes.contains_key(b) && t@.nodes[b].children.contains(a),
{
    t.lemma_wf();
}

/// A handle never comes back once its node is removed: a removed handle's
/// generation lies below the removal count at that point, the count never
/// decreases, and a new node's handle carries the count as it then stands.
pub proof fn law_removed_handle_not_reused(
    removed_id: NodeId,
    count_after_removal: nat,
    count_at_addition: nat,
    added_id: NodeId,
)
    requires
        removed_id.generation < count_after_removal,
        count_after_removal <= count_at_addition,
        added_id.generation == count_at_addition,
    ensures
        added_id != removed_id,
{
}

pub struct TreeView {
    pub nodes: Graph,
    pub root: NodeId,
}

/// A proof graph rooted at the topic statement.
pub struct TreeState {
    arena: Arena<StatementNode>,
    root: NodeId,
    removals: u64,
}

impl View for TreeState {
    type V = TreeView;

    closed spec fn view(&self) -> TreeView {
        TreeView { nodes: arena_nodes(self.arena), root: self.root }
    }
}

impl TreeState {
    /// How many nodes have been removed so far.
    pub closed spec fn removal_count(&self) -> nat {
        self.removals as nat
    }

    pub closed spec fn wf(&self) -> bool {
        &&& arena_generation(self.arena) == self.removals
        &&& forall|k: NodeId|
            #[trigger] arena_nodes(self.arena).dom().contains(k) ==> k.generation <= self.removals
        &&& arena_nodes(self.arena).dom().contains(self.root)
        &&& graph_wf(arena_nodes(self.arena))
    }

    pub broadcast proof fn lemma_wf(&self)
        requires
            #[trigger] self.wf(),
        ensures
            graph_wf(self@.nodes),
            self@.nodes.dom().contains(self@.root),
    {
    }

    pub fn new(root_statement: String) -> (r: TreeState)
        ensures
            r.wf(),
            r.removal_count() == 0,
            r@.nodes == map![r@.root => fresh_node(root_statement@)],
    {
        let mut arena = arena_new();
        let root = arena_insert(&mut arena, StatementNode::new(root_statement));
        let r = TreeState { arena, root, removals: 0 };
        assert(r@.nodes =~= map![r@.root => fresh_node(root_statement@)]);
        r
    }

    /// Whether every premise of a live node is proven.
    fn children_proven(&self, id: NodeId) -> (r: bool)
        requires
            arena_nodes(self.arena).dom().contains(id),
            edges_closed(arena_nodes(self.arena)),
        ensures
            r == all_children_proven(arena_nodes(self.arena), id),
    {
        let ghost g = arena_nodes(self.arena);
        let node = arena_get(&self.arena, id);
        let mut i: usize = 0;
        while i < node.children.len()
            invariant
                node@ == g[id],
                g == arena_nodes(self.arena),
                g.dom().contains(id),
                edges_closed(g),
                i <= node.children@.len(),
                forall|j: int| 0 <= j < i ==> proven(g, #[trigger] node.children@[j]),
            decreases node.children.len() - i,
        {
            let c = node.children[i];
            assert(g[id].children.contains(c));
            if !arena_get(&self.arena, c).state.is_proven() {
                return false;
            }
            i += 1;
        }
        assert forall|c: NodeId| #[trigger] g[id].children.contains(c) implies proven(g, c) by {
            let j = choose|j: int| 0 <= j < g[id].children.len() && g[id].children[j] == c;
            assert(proven(g, node.children@[j]));
        }
        true
    }

    fn set_state(&mut self, id: NodeId, state: ProofState)
        requires
            arena_nodes(old(self).arena).dom().contains(id),
        ensures
            arena_nodes(final(self).arena) == arena_nodes(old(self).arena).insert(
                id,
                with_state(arena_nodes(old(self).arena)[id], state),
            ),
            arena_generation(final(self).arena) == arena_generation(old(self).arena),
            final(self).root == old(self).root,
            final(self).removals == old(self).removals,
    {
        let node = arena_get_mut(&mut self.arena, id);
        node.state = state;
    }

    /// Appends the parents of a live node to `work`.
    fn push_parents(&self, id: NodeId, work: &mut Vec<NodeId>)
        requires
            arena_nodes(self.arena).dom().contains(id),
        ensures
            final(work)@ == old(work)@ + arena_nodes(self.arena)[id].parents,
    {
        append_ids(work, &arena_get(&self.arena, id).parents);
    }

    /// Takes away proven-ness from implied nodes, starting with those in
    /// `work`, until every implied node agrees with its premises.
    fn settle_down(&mut self, work: Vec<NodeId>, Ghost(start): Ghost<Graph>)
        requires
            arena_nodes(old(self).arena) == start,
            structure_wf(start),
            unproven_justified(start),
            forall|n: NodeId| overstated(start, n) ==> #[trigger] work@.contains(n),
        ensures
            settled_down(start, arena_nodes(final(self).arena)),
            arena_generation(final(self).arena) == arena_generation(old(self).arena),
            final(self).root == old(self).root,
            final(self).removals == old(self).removals,
    {
        let mut work = work;
        proof {
            lemma_set_subset_finite(start.dom(), proven_set(start));
        }
        while work.len() > 0
            invariant
                structure_wf(start),
                structure_wf(arena_nodes(self.arena)),
                same_but_verdicts(start, arena_nodes(self.arena)),
                proven_set(arena_nodes(self.arena)).subset_of(proven_set(start)),
                proven_set(arena_nodes(self.arena)).finite(),
                forall|s: Set<NodeId>|
                    s.subset_of(proven_set(start)) && #[trigger] closed_down(start, s)
                        ==> s.subset_of(proven_set(arena_nodes(self.arena))),
                unproven_justified(arena_nodes(self.arena)),
                forall|n: NodeId|
                    overstated(arena_nodes(self.arena), n) ==> #[trigger] work@.contains(n),
                arena_generation(self.arena) == arena_generation(old(self).arena),
                self.root == old(self).root,
                self.removals == old(self).removals,
            decreases proven_set(arena_nodes(self.arena)).len(), work.len(),
        {
            let ghost g0 = arena_nodes(self.arena);
            let ghost before = work@;
            let id = work.pop().unwrap();
            assert(before == work@.push(id));
            if arena_contains(&self.arena, id) && arena_get(&self.arena, id).state
                == ProofState::ImpliedProven && !self.children_proven(id) {
                self.push_parents(id, &mut work);
                self.set_state(id, ProofState::ImpliedUnproven);
                proof {
                    lemma_step_down(start, g0, id, before.drop_last());
                    lemma_restate_structure(g0, id, ProofState::ImpliedUnproven);
                    assert(before.drop_last() =~= work@.subrange(0, before.len() - 1));
                }
            } else {
                assert forall|n: NodeId|
                    overstated(arena_nodes(self.arena), n) implies #[trigger] work@.contains(n) by {
                    assert(before.contains(n));
                    let k = choose|k: int| 0 <= k < before.len() && before[k] == n;
                    assert(k < work@.len());
                    assert(work@[k] == n);
                }
            }
        }
        proof {
            let g = arena_nodes(self.arena);
            assert forall|n: NodeId| #![trigger g[n].state] g.dom().contains(n) && implied(g, n)
                implies (proven(g, n) <==> all_children_proven(g, n)) by {
                assert(!work@.contains(n));
            }
        }
    }

    /// Gives proven-ness to implied nodes, starting with those in `work`,
    /// until every implied node agrees with its premises.
    fn settle_up(&mut self, work: Vec<NodeId>, Ghost(start): Ghost<Graph>)
        requires
            arena_nodes(old(self).arena) == start,
            structure_wf(start),
            proven_justified(start),
            forall|n: NodeId| understated(start, n) ==> #[trigger] work@.contains(n),
        ensures
            settled_up(start, arena_nodes(final(self).arena)),
            arena_generation(final(self).arena) == arena_generation(old(self).arena),
            final(self).root == old(self).root,
            final(self).removals == old(self).removals,
    {
        let mut work = work;
        proof {
            lemma_set_subset_finite(start.dom(), unproven_set(start));
        }
        while work.len() > 0
            invariant
                structure_wf(start),
                structure_wf(arena_nodes(self.arena)),
                same_but_verdicts(start, arena_nodes(self.arena)),
                proven_set(start).subset_of(proven_set(arena_nodes(self.arena))),
                unproven_set(arena_nodes(self.arena)).finite(),
                forall|s: Set<NodeId>|
                    proven_set(start).subset_of(s) && #[trigger] closed_up(start, s)
                        ==> proven_set(arena_nodes(self.arena)).subset_of(s),
                proven_justified(arena_nodes(self.arena)),
                forall|n: NodeId|
                    understated(arena_nodes(self.arena), n) ==> #[trigger] work@.contains(n),
                arena_generation(self.arena) == arena_generation(old(self).arena),
                self.root == old(self).root,
                self.removals == old(self).removals,
            decreases unproven_set(arena_nodes(self.arena)).len(), work.len(),
        {
            let ghost g0 = arena_nodes(self.arena);
            let ghost before = work@;
            let id = work.pop().unwrap();
            assert(before == work@.push(id));
            if arena_contains(&self.arena, id) && arena_get(&self.arena, id).state
                == ProofState::ImpliedUnproven && self.children_proven(id) {
                self.push_parents(id, &mut work);
                self.set_state(id, ProofState::ImpliedProven);
                proof {
                    lemma_step_up(start, g0, id, before.drop_last());
                    lemma_restate_structure(g0, id, ProofState::ImpliedProven);
                    assert(before.drop_last() =~= work@.subrange(0, before.len() - 1));
                }
            } else {
                assert forall|n: NodeId|
                    understated(arena_nodes(self.arena), n) implies #[trigger] work@.contains(n) by {
                    assert(before.contains(n));
                    let k = choose|k: int| 0 <= k < before.len() && before[k] == n;
                    assert(k < work@.len());
                    assert(work@[k] == n);
                }
            }
        }
        proof {
            let g = arena_nodes(self.arena);
            assert forall|n: NodeId| #![trigger g[n].state] g.dom().contains(n) && implied(g, n)
                implies (proven(g, n) <==> all_children_proven(g, n)) by {
                assert(!work@.contains(n));
            }
        }
    }

    pub fn is_proven(&self, id: NodeId) -> (r: Result<bool, ProofError>)
        ensures
            self@.nodes.contains_key(id) ==> r == Ok::<bool, ProofError>(proven(self@.nodes, id)),
            !self@.nodes.contains_key(id) ==> r == Err::<bool, ProofError>(ProofError::NoSuchNode(id)),
    {
        if !arena_contains(&self.arena, id) {
            return Err(ProofError::NoSuchNode(id));
        }
        Ok(arena_get(&self.arena, id).state.is_proven())
    }

    /// Whether the topic statement is proven.
    pub fn proof_complete(&self) -> (r: bool)
        requires
            self.wf(),
        ensures
            r == proven(self@.nodes, self@.root),
    {
        arena_get(&self.arena, self.root).state.is_proven()
    }

    pub fn root(&self) -> (r: NodeId)
        ensures
            r == self@.root,
    {
        self.root
    }

    pub fn get_statement(&self, id: NodeId) -> (r: Result<&str, ProofError>)
        ensures
            self@.nodes.contains_key(id) ==> r is Ok && r->Ok_0@ == self@.nodes[id].text,
            !self@.nodes.contains_key(id) ==> r == Err::<&str, ProofError>(ProofError::NoSuchNode(id)),
    {
        if !arena_contains(&self.arena, id) {
            return Err(ProofError::NoSuchNode(id));
        }
        Ok(arena_get(&self.arena, id).statement.as_str())
    }

    /// The texts of the premises of a node, in the order they were linked.
    pub fn get_premises(&self, id: NodeId) -> (r: Result<Vec<&str>, ProofError>)
        requires
            self.wf(),
        ensures
            self@.nodes.contains_key(id) ==> r is Ok && r->Ok_0.len() == self@.nodes[id].children.len()
                && forall|i: int|
                0 <= i < r->Ok_0.len() ==> (#[trigger] r->Ok_0[i])@ == self@.nodes[self@.nodes[
                id].children[i]].text,
            !self@.nodes.contains_key(id) ==> (r matches Err(ProofError::NoSuchNode(e)) && e == id),
    {
        if !arena_contains(&self.arena, id) {
            return Err(ProofError::NoSuchNode(id));
        }
        let ghost g = arena_nodes(self.arena);
        let node = arena_get(&self.arena, id);
        let mut out: Vec<&str> = Vec::new();
        let mut i: usize = 0;
        while i < node.children.len()
            invariant
                g == arena_nodes(self.arena),
                graph_wf(g),
                g.dom().contains(id),
                node@ == g[id],
                i <= node.children@.len(),
                out.len() == i,
                forall|j: int| 0 <= j < i ==> (#[trigger] out[j])@ == g[g[id].children[j]].text,
            decreases node.children.len() - i,
        {
            let c = node.children[i];
            assert(g[id].children.contains(c));
            out.push(arena_get(&self.arena, c).statement.as_str());
            i += 1;
        }
        Ok(out)
    }

    /// Adds an unproven statement without edges.
    pub fn add_node(&mut self, statement: String) -> (id: NodeId)
        requires
            old(self).wf(),
        ensures
            final(self).wf(),
            final(self).removal_count() == old(self).removal_count(),
            final(self)@.root == old(self)@.root,
            !old(self)@.nodes.contains_key(id),
            id.generation == old(self).removal_count(),
            final(self)@.nodes == old(self)@.nodes.insert(id, fresh_node(statement@)),
    {
        let ghost g = arena_nodes(self.arena);
        let ghost text = statement@;
        let id = arena_insert(&mut self.arena, StatementNode::new(statement));
        proof {
            let g1 = arena_nodes(self.arena);
            assert(g1.dom() =~= g.dom().insert(id));
            assert forall|a: NodeId, b: NodeId| g1.dom().contains(a) && g1.dom().contains(b) implies (
            #[trigger] g1[a].children.contains(b) <==> g1[b].parents.contains(a)) by {
                if a != id && b != id {
                    assert(g[a].children.contains(b) <==> g[b].parents.contains(a));
                } else if a != id {
                    assert(!g[a].children.contains(b));
                } else if b != id {
                    assert(!g[b].parents.contains(a));
                }
            }
            assert forall|a: NodeId, b: NodeId|
                g1.dom().contains(a) && #[trigger] g1[a].children.contains(b) implies g1.dom().contains(
                b,
            ) by {
                if a != id {
                    assert(g[a].children.contains(b));
                }
            }
            assert forall|a: NodeId, b: NodeId|
                g1.dom().contains(a) && #[trigger] g1[a].parents.contains(b) implies g1.dom().contains(
                b,
            ) by {
                if a != id {
                    assert(g[a].parents.contains(b));
                }
            }
            assert forall|n: NodeId| #![trigger g1[n].state] g1.dom().contains(n) && implied(g1, n)
                implies (proven(g1, n) <==> all_children_proven(g1, n)) by {
                assert(proven(g, n) <==> all_children_proven(g, n));
                assert forall|c: NodeId| #[trigger] g1[n].children.contains(c) implies c != id
                    && g1[c] == g[c] by {
                    assert(g[n].children.contains(c));
                }
                if !all_children_proven(g, n) {
                    let c = choose|c: NodeId| g[n].children.contains(c) && !proven(g, c);
                    assert(g1[n].children.contains(c));
                }
            }
        }
        id
    }

    /// Replaces the text of a node, which takes back any verdict on it.
    pub fn change_node_statement(&mut self, id: NodeId, new_statement: String) -> (r: Result<
        (),
        ProofError,
    >)
        requires
            old(self).wf(),
        ensures
            final(self).wf(),
            final(self).removal_count() == old(self).removal_count(),
            final(self)@.root == old(self)@.root,
            !old(self)@.nodes.contains_key(id) ==> r == Err::<(), ProofError>(
                ProofError::NoSuchNode(id),
            ) && final(self)@ == old(self)@,
            old(self)@.nodes.contains_key(id) ==> r is Ok && settled_down(
                edited(old(self)@.nodes, id, new_statement@),
                final(self)@.nodes,
            ),
            old(self)@.nodes.contains_key(id) ==> final(self)@.nodes[id].state == ProofState::Unproven
                && final(self)@.nodes[id].text == new_statement@,
    {
        if !arena_contains(&self.arena, id) {
            return Err(ProofError::NoSuchNode(id));
        }
        let ghost g = arena_nodes(self.arena);
        let ghost start = edited(g, id, new_statement@);
        let work = self.parents_of(id);
        let node = arena_get_mut(&mut self.arena, id);
        node.statement = new_statement;
        node.state = ProofState::Unproven;
        proof {
            lemma_lower(g, id, start[id]);
            assert(arena_nodes(self.arena) =~= start);
        }
        self.settle_down(work, Ghost(start));
        proof {
            lemma_settled_wf(start, arena_nodes(self.arena));
        }
        Ok(())
    }

    /// Records the adjudicator's acceptance of a statement by itself.
    pub fn set_directly_proven(&mut self, id: NodeId)
        requires
            old(self).wf(),
            old(self)@.nodes.contains_key(id),
        ensures
            final(self).wf(),
            final(self).removal_count() == old(self).removal_count(),
            final(self)@.root == old(self)@.root,
            settled_up(proven_directly(old(self)@.nodes, id), final(self)@.nodes),
    {
        let ghost g = arena_nodes(self.arena);
        let ghost start = proven_directly(g, id);
        let work = self.parents_of(id);
        self.set_state(id, ProofState::DirectlyProven);
        proof {
            lemma_raise(g, id, start[id]);
        }
        self.settle_up(work, Ghost(start));
        proof {
            lemma_settled_wf(start, arena_nodes(self.arena));
        }
    }

    /// Records the adjudicator's acceptance of a statement as following from
    /// its premises; it is proven while they all are.
    pub fn set_implied(&mut self, id: NodeId)
        requires
            old(self).wf(),
            old(self)@.nodes.contains_key(id),
        ensures
            final(self).wf(),
            final(self).removal_count() == old(self).removal_count(),
            final(self)@.root == old(self)@.root,
            all_children_proven(old(self)@.nodes, id) ==> settled_up(
                proven_by_implication(old(self)@.nodes, id),
                final(self)@.nodes,
            ),
            !all_children_proven(old(self)@.nodes, id) ==> settled_down(
                proven_by_implication(old(self)@.nodes, id),
                final(self)@.nodes,
            ),
    {
        let ghost g = arena_nodes(self.arena);
        let ghost start = proven_by_implication(g, id);
        let work = self.parents_of(id);
        if self.children_proven(id) {
            self.set_state(id, ProofState::ImpliedProven);
            proof {
                lemma_raise(g, id, start[id]);
            }
            self.settle_up(work, Ghost(start));
        } else {
            self.set_state(id, ProofState::ImpliedUnproven);
            proof {
                lemma_lower(g, id, start[id]);
            }
            self.settle_down(work, Ghost(start));
        }
        proof {
            lemma_settled_wf(start, arena_nodes(self.arena));
        }
    }

    fn parents_of(&self, id: NodeId) -> (r: Vec<NodeId>)
        requires
            arena_nodes(self.arena).dom().contains(id),
        ensures
            r@ == arena_nodes(self.arena)[id].parents,
    {
        let mut r: Vec<NodeId> = Vec::new();
        self.push_parents(id, &mut r);
        assert(r@ =~= arena_nodes(self.arena)[id].parents);
        r
    }

    /// Makes `child_id` a premise of `parent_id`; an implied parent follows
    /// its premises as they now are. A node may be linked to itself, any
    /// number of times, which adds the edge and changes no state.
    pub fn link(&mut self, parent_id: NodeId, child_id: NodeId) -> (r: Result<(), ProofError>)
        requires
            old(self).wf(),
        ensures
            final(self).wf(),
            final(self).removal_count() == old(self).removal_count(),
            final(self)@.root == old(self)@.root,
            r is Err ==> final(self)@ == old(self)@,
            !old(self)@.nodes.contains_key(parent_id) ==> r == Err::<(), ProofError>(
                ProofError::NoSuchNode(parent_id),
            ),
            old(self)@.nodes.contains_key(parent_id) && !old(self)@.nodes.contains_key(child_id)
                ==> r == Err::<(), ProofError>(ProofError::NoSuchNode(child_id)),
            old(self)@.nodes.contains_key(parent_id) && old(self)@.nodes.contains_key(child_id)
                && parent_id != child_id && old(self)@.nodes[parent_id].children.contains(child_id)
                ==> r == Err::<(), ProofError>(
                ProofError::AddExistingLink { child: child_id, parent: parent_id },
            ),
            old(self)@.nodes.contains_key(parent_id) && old(self)@.nodes.contains_key(child_id) && (
            parent_id == child_id || !old(self)@.nodes[parent_id].children.contains(child_id))
                ==> r is Ok && settled_down(
                linked(old(self)@.nodes, parent_id, child_id),
                final(self)@.nodes,
            ),
            old(self)@.nodes.contains_key(parent_id) && parent_id == child_id ==> final(self)@.nodes
                == linked(old(self)@.nodes, parent_id, parent_id),
    {
        if !arena_contains(&self.arena, parent_id) {
            return Err(ProofError::NoSuchNode(parent_id));
        }
        if !arena_contains(&self.arena, child_id) {
            return Err(ProofError::NoSuchNode(child_id));
        }
        if parent_id != child_id && contains_id(&arena_get(&self.arena, parent_id).children, child_id) {
            return Err(ProofError::AddExistingLink { child: child_id, parent: parent_id });
        }
        let ghost g = arena_nodes(self.arena);
        let ghost start = linked(g, parent_id, child_id);
        let parent = arena_get_mut(&mut self.arena, parent_id);
        parent.children.push(child_id);
        if parent_id == child_id {
            parent.parents.push(parent_id);
        } else {
            let child = arena_get_mut(&mut self.arena, child_id);
            child.parents.push(parent_id);
        }
        proof {
            lemma_link(g, parent_id, child_id);
            assert(arena_nodes(self.arena) =~= start);
        }
        let mut work: Vec<NodeId> = Vec::new();
        work.push(parent_id);
        assert(work@[0] == parent_id);
        self.settle_down(work, Ghost(start));
        proof {
            lemma_settled_wf(start, arena_nodes(self.arena));
            if parent_id == child_id {
                lemma_self_link(g, parent_id);
                law_settled_graph_is_left_alone(start, arena_nodes(self.arena));
            }
        }
        Ok(())
    }

    /// Stops `child_id` being a premise of `parent_id`; an implication
    /// verdict on the parent lapses. A missing link of a node to itself is
    /// no error.
    pub fn unlink(&mut self, parent_id: NodeId, child_id: NodeId) -> (r: Result<(), ProofError>)
        requires
            old(self).wf(),
        ensures
            final(self).wf(),
            final(self).removal_count() == old(self).removal_count(),
            final(self)@.root == old(self)@.root,
            r is Err ==> final(self)@ == old(self)@,
            !old(self)@.nodes.contains_key(parent_id) ==> r == Err::<(), ProofError>(
                ProofError::NoSuchNode(parent_id),
            ),
            old(self)@.nodes.contains_key(parent_id) && !old(self)@.nodes.contains_key(child_id)
                ==> r == Err::<(), ProofError>(ProofError::NoSuchNode(child_id)),
            old(self)@.nodes.contains_key(parent_id) && old(self)@.nodes.contains_key(child_id)
                && !old(self)@.nodes[parent_id].children.contains(child_id) ==> if parent_id
                == child_id {
                r is Ok && final(self)@ == old(self)@
            } else {
                r == Err::<(), ProofError>(
                    ProofError::RemoveNonExistentLink { child: child_id, parent: parent_id },
                )
            },
            old(self)@.nodes.contains_key(parent_id) && old(self)@.nodes.contains_key(child_id)
                && old(self)@.nodes[parent_id].children.contains(child_id) ==> r is Ok
                && settled_down(unlinked(old(self)@.nodes, parent_id, child_id), final(self)@.nodes),
            old(self)@.nodes.contains_key(parent_id) && old(self)@.nodes.contains_key(child_id)
                && old(self)@.nodes[parent_id].children.contains(child_id) && implied(
                old(self)@.nodes,
                parent_id,
            ) ==> final(self)@.nodes[parent_id].state == ProofState::Unproven,
    {
        if !arena_contains(&self.arena, parent_id) {
            return Err(ProofError::NoSuchNode(parent_id));
        }
        if !arena_contains(&self.arena, child_id) {
            return Err(ProofError::NoSuchNode(child_id));
        }
        if !contains_id(&arena_get(&self.arena, parent_id).children, child_id) {
            if parent_id == child_id {
                return Ok(());
            }
            return Err(ProofError::RemoveNonExistentLink { child: child_id, parent: parent_id });
        }
        let ghost g = arena_nodes(self.arena);
        let ghost start = unlinked(g, parent_id, child_id);
        let work = self.parents_of(parent_id);
        let parent = arena_get_mut(&mut self.arena, parent_id);
        parent.children = without(&parent.children, child_id);
        if parent.state.is_implied() {
            parent.state = ProofState::Unproven;
        }
        if parent_id == child_id {
            parent.parents = without(&parent.parents, parent_id);
        } else {
            let child = arena_get_mut(&mut self.arena, child_id);
            child.parents = without(&child.parents, parent_id);
        }
        proof {
            lemma_unlink(g, parent_id, child_id);
            assert(arena_nodes(self.arena) =~= start);
        }
        self.settle_down(work, Ghost(start));
        proof {
            lemma_settled_wf(start, arena_nodes(self.arena));
        }
        Ok(())
    }

    /// Takes `x` out of the edges of the live node `n`; if `x` was a premise
    /// of `n` and `n` held an implication verdict, the verdict lapses and the
    /// parents of `n` go onto `work`.
    fn detach(&mut self, n: NodeId, x: NodeId, work: &mut Vec<NodeId>)
        requires
            arena_nodes(old(self).arena).dom().contains(n),
        ensures
            arena_nodes(final(self).arena) == arena_nodes(old(self).arena).insert(
                n,
                detached(arena_nodes(old(self).arena)[n], x),
            ),
            arena_generation(final(self).arena) == arena_generation(old(self).arena),
            final(self).root == old(self).root,
            final(self).removals == old(self).removals,
            final(work)@ == if arena_nodes(old(self).arena)[n].children.contains(x)
                && arena_nodes(old(self).arena)[n].state.implied() {
                old(work)@ + arena_nodes(old(self).arena)[n].parents
            } else {
                old(work)@
            },
    {
        let node = arena_get_mut(&mut self.arena, n);
        if contains_id(&node.children, x) && node.state.is_implied() {
            append_ids(work, &node.parents);
            node.state = ProofState::Unproven;
        }
        node.children = without(&node.children, x);
        node.parents = without(&node.parents, x);
    }

    /// Removes a node and every edge at it. Parents that held an implication
    /// verdict lose it.
    pub fn remove_node(&mut self, id: NodeId) -> (r: Result<(), ProofError>)
        requires
            old(self).wf(),
            id != old(self)@.root && old(self)@.nodes.contains_key(id) ==> old(self).removal_count()
                < u64::MAX,
        ensures
            final(self).wf(),
            final(self)@.root == old(self)@.root,
            r is Err ==> final(self)@ == old(self)@ && final(self).removal_count()
                == old(self).removal_count(),
            id == old(self)@.root ==> r == Err::<(), ProofError>(ProofError::RemoveRoot),
            id != old(self)@.root && !old(self)@.nodes.contains_key(id) ==> r == Err::<
                (),
                ProofError,
            >(ProofError::NoSuchNode(id)),
            id != old(self)@.root && old(self)@.nodes.contains_key(id) ==> r is Ok && settled_down(
                removed(old(self)@.nodes, id),
                final(self)@.nodes,
            ) && final(self).removal_count() == old(self).removal_count() + 1
                && id.generation < final(self).removal_count(),
    {
        if id == self.root {
            return Err(ProofError::RemoveRoot);
        }
        if !arena_contains(&self.arena, id) {
            return Err(ProofError::NoSuchNode(id));
        }
        let ghost g = arena_nodes(self.arena);
        let node = match arena_remove(&mut self.arena, id) {
            Some(node) => node,
            None => {
                return Err(ProofError::NoSuchNode(id));
            },
        };
        self.removals = self.removals + 1;
        let mut neighbours: Vec<NodeId> = Vec::new();
        append_ids(&mut neighbours, &node.parents);
        append_ids(&mut neighbours, &node.children);
        let mut work: Vec<NodeId> = Vec::new();
        let mut i: usize = 0;
        while i < neighbours.len()
            invariant
                graph_wf(g),
                g.dom().contains(id),
                g.dom().contains(self.root),
                self.root != id,
                self.root == old(self).root,
                arena_generation(self.arena) == self.removals,
                self.removals == old(self).removals + 1,
                neighbours@ == g[id].parents + g[id].children,
                i <= neighbours@.len(),
                arena_nodes(self.arena).dom() == g.dom().remove(id),
                forall|k: NodeId|
                    #![trigger arena_nodes(self.arena)[k]]
                    arena_nodes(self.arena).dom().contains(k) ==> arena_nodes(self.arena)[k] == if neighbours@.subrange(
                        0,
                        i as int,
                    ).contains(k) {
                        detached(g[k], id)
                    } else {
                        g[k]
                    },
                forall|k: NodeId, n: NodeId|
                    #![trigger g[k].parents.contains(n), neighbours@.subrange(0, i as int).contains(k)]
                    k != id && neighbours@.subrange(0, i as int).contains(k) && g[k].children.contains(id)
                        && implied(g, k) && g[k].parents.contains(n) ==> work@.contains(n),
            decreases neighbours.len() - i,
        {
            let ghost g0 = arena_nodes(self.arena);
            let ghost w0 = work@;
            let n = neighbours[i];
            proof {
                lemma_push_contains(neighbours@.subrange(0, i as int), n);
                assert(neighbours@.subrange(0, i + 1) =~= neighbours@.subrange(0, i as int).push(n));
            }
            if arena_contains(&self.arena, n) {
                self.detach(n, id, &mut work);
                proof {
                    lemma_remove_all(g[n].children, id);
                    lemma_remove_all(g[n].parents, id);
                    if neighbours@.subrange(0, i as int).contains(n) {
                        lemma_remove_all(remove_all(g[n].children, id), id);
                        lemma_remove_all(remove_all(g[n].parents, id), id);
                        assert(detached(g0[n], id) =~= detached(g[n], id));
                    }
                    assert forall|k: NodeId, m: NodeId|
                        #![trigger g[k].parents.contains(m), neighbours@.subrange(0, i + 1).contains(k)]
                        k != id && neighbours@.subrange(0, i + 1).contains(k) && g[k].children.contains(id)
                            && implied(g, k) && g[k].parents.contains(m) implies work@.contains(m) by {
                        if neighbours@.subrange(0, i as int).contains(k) {
                            assert(w0.contains(m));
                            let j = choose|j: int| 0 <= j < w0.len() && w0[j] == m;
                            assert(work@[j] == m);
                        } else {
                            assert(k == n);
                            assert(g0[n] == g[n]);
                            let j = choose|j: int| 0 <= j < g[n].parents.len() && g[n].parents[j] == m;
                            assert(work@[w0.len() + j] == m);
                        }
                    }
                }
            } else {
                proof {
                    if i < g[id].parents.len() {
                        assert(g[id].parents[i as int] == n);
                        assert(g[id].parents.contains(n));
                    } else {
                        assert(g[id].children[i - g[id].parents.len()] == n);
                        assert(g[id].children.contains(n));
                    }
                    assert(n == id);
                }
            }
            i += 1;
        }
        proof {
            let g1 = arena_nodes(self.arena);
            let start = removed(g, id);
            assert(neighbours@.subrange(0, i as int) =~= neighbours@);
            assert(g1.dom() =~= start.dom());
            assert forall|k: NodeId| #[trigger] g1.dom().contains(k) implies g1[k] == start[k] by {
                if !neighbours@.contains(k) {
                    lemma_remove_all(g[k].children, id);
                    lemma_remove_all(g[k].parents, id);
                    if g[k].children.contains(id) {
                        assert(g[id].parents.contains(k));
                        let j = choose|j: int| 0 <= j < g[id].parents.len() && g[id].parents[j] == k;
                        assert(neighbours@[j] == k);
                    }
                    if g[k].parents.contains(id) {
                        assert(g[id].children.contains(k));
                        let j = choose|j: int| 0 <= j < g[id].children.len() && g[id].children[j] == k;
                        assert(neighbours@[g[id].parents.len() + j] == k);
                    }
                    assert(detached(g[k], id) =~= g[k]);
                }
            }
            assert(g1 =~= start);
            lemma_remove(g, id);
            assert forall|m: NodeId| overstated(start, m) implies #[trigger] work@.contains(m) by {
                let k = choose|k: NodeId|
                    #![trigger g[k].parents.contains(m)]
                    g[id].parents.contains(k) && k != id && implied(g, k) && g[k].children.contains(
                        id,
                    ) && g[k].parents.contains(m);
                let j = choose|j: int| 0 <= j < g[id].parents.len() && g[id].parents[j] == k;
                assert(neighbours@[j] == k);
                assert(neighbours@.contains(k));
            }
        }
        self.settle_down(work, Ghost(removed(g, id)));
        proof {
            lemma_settled_wf(removed(g, id), arena_nodes(self.arena));
        }
        Ok(())
    }

    /// Every live node with its text, state and edges.
    pub fn as_dto(&self) -> (r: TreeStateDTO)
        ensures
            snapshot_of(r, self@),
    {
        let ids = arena_ids(&self.arena);
        let mut statements: Vec<StatementDTO> = Vec::new();
        let mut i: usize = 0;
        while i < ids.len()
            invariant
                i <= ids@.len(),
                statements.len() == i,
                ids@.no_duplicates(),
                forall|k: NodeId| ids@.contains(k) <==> arena_nodes(self.arena).contains_key(k),
                forall|j: int| 0 <= j < i ==> #[trigger] statements[j].id == ids@[j],
                forall|j: int|
                    #![trigger statements[j]]
                    0 <= j < i ==> {
                        let s = statements[j];
                        &&& s.statement@ == self@.nodes[s.id].text
                        &&& s.state == self@.nodes[s.id].state
                        &&& s.parents@ == self@.nodes[s.id].parents
                        &&& s.children@ == self@.nodes[s.id].children
                    },
            decreases ids.len() - i,
        {
            let id = ids[i];
            assert(ids@.contains(id));
            let node = arena_get(&self.arena, id);
            let mut parents: Vec<NodeId> = Vec::new();
            append_ids(&mut parents, &node.parents);
            let mut children: Vec<NodeId> = Vec::new();
            append_ids(&mut children, &node.children);
            assert(parents@ =~= node.parents@);
            assert(children@ =~= node.children@);
            statements.push(
                StatementDTO {
                    id,
                    statement: node.statement.clone(),
                    state: node.state,
                    parents,
                    children,
                },
            );
            i += 1;
        }
        let r = TreeStateDTO { statements, root: self.root };
        assert forall|k: NodeId| self@.nodes.contains_key(k) implies exists|j: int|
            0 <= j < r.statements.len() && #[trigger] r.statements[j].id == k by {
            assert(ids@.contains(k));
            let j = choose|j: int| 0 <= j < ids@.len() && ids@[j] == k;
            assert(r.statements[j].id == ids@[j]);
        }
        assert forall|k: NodeId| (exists|j: int|
            0 <= j < r.statements.len() && #[trigger] r.statements[j].id == k) implies self@.nodes.contains_key(k) by {
            let j = choose|j: int| 0 <= j < r.statements.len() && #[trigger] r.statements[j].id == k;
            assert(ids@[j] == k);
            assert(ids@.contains(k));
        }
        r
    }

    /// How many nodes have been removed so far.
    pub fn removals(&self) -> (r: u64)
        ensures
            r == self.removal_count(),
    {
        self.removals
    }
}

} // verus!
