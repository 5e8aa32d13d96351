//! How proven-ness travels up the graph, stated over the graph model: the
//! downward and upward waves, what a settled graph is, and the proofs that
//! each operation leaves the graph ready for its wave.
use vstd::prelude::*;

use crate::arena::NodeId;
use crate::graph::{
    all_children_proven, detached, edges_closed, edges_symmetric, graph_wf, implications_hold,
    implied, linked, proven, removed, unlinked, Graph, NodeView, ProofState,
};
use crate::seqs::lemma_remove_all;

verus! {

pub open spec fn with_state(v: NodeView, state: ProofState) -> NodeView {
    NodeView { state, ..v }
}

/// The proven nodes of a graph.
pub open spec fn proven_set(g: Graph) -> Set<NodeId> {
    g.dom().filter(|n: NodeId| proven(g, n))
}

/// The unproven nodes of a graph.
pub open spec fn unproven_set(g: Graph) -> Set<NodeId> {
    g.dom().filter(|n: NodeId| !proven(g, n))
}

/// Every implied member of `s` has all its premises in `s`.
pub open spec fn closed_down(g: Graph, s: Set<NodeId>) -> bool {
    forall|n: NodeId, c: NodeId|
        s.contains(n) && implied(g, n) && #[trigger] g[n].children.contains(c) ==> s.contains(c)
}

/// Every implied node whose premises all lie in `s` lies in `s`.
pub open spec fn closed_up(g: Graph, s: Set<NodeId>) -> bool {
    forall|n: NodeId|
        #![trigger s.contains(n)]
        g.dom().contains(n) && implied(g, n) && (forall|c: NodeId| #[trigger]
            g[n].children.contains(c) ==> s.contains(c)) ==> s.contains(n)
}

/// The two graphs differ at most in the proven-ness of implied nodes.
pub open spec fn same_but_verdicts(g1: Graph, g2: Graph) -> bool {
    &&& g1.dom() == g2.dom()
    &&& forall|n: NodeId|
        #![trigger g2[n]]
        g1.dom().contains(n) ==> {
            &&& g2[n].text == g1[n].text
            &&& g2[n].parents == g1[n].parents
            &&& g2[n].children == g1[n].children
            &&& g2[n].state.implied() == g1[n].state.implied()
            &&& !g1[n].state.implied() ==> g2[n].state == g1[n].state
        }
}

/// `g2` is `g1` after a change that can only take proven-ness away: implied
/// nodes lose it as far as their premises force them to, and no further.
/// The proven nodes of `g2` are the largest set below those of `g1` in which
/// every implied node has its premises.
pub open spec fn settled_down(g1: Graph, g2: Graph) -> bool {
    &&& same_but_verdicts(g1, g2)
    &&& implications_hold(g2)
    &&& proven_set(g2).subset_of(proven_set(g1))
    &&& forall|s: Set<NodeId>|
        s.subset_of(proven_set(g1)) && #[trigger] closed_down(g1, s) ==> s.subset_of(
            proven_set(g2),
        )
}

/// `g2` is `g1` after a change that can only add proven-ness: implied nodes
/// gain it as far as their premises allow, and no further. The proven nodes
/// of `g2` are the smallest set above those of `g1` that holds every implied
/// node whose premises it holds.
pub open spec fn settled_up(g1: Graph, g2: Graph) -> bool {
    &&& same_but_verdicts(g1, g2)
    &&& implications_hold(g2)
    &&& proven_set(g1).subset_of(proven_set(g2))
    &&& forall|s: Set<NodeId>|
        proven_set(g1).subset_of(s) && #[trigger] closed_up(g1, s) ==> proven_set(g2).subset_of(s)
}

/// An implied, proven node with an unproven premise.
pub open spec fn overstated(g: Graph, n: NodeId) -> bool {
    g.dom().contains(n) && g[n].state == ProofState::ImpliedProven && !all_children_proven(g, n)
}

/// An implied, unproven node whose premises are all proven.
pub open spec fn understated(g: Graph, n: NodeId) -> bool {
    g.dom().contains(n) && g[n].state == ProofState::ImpliedUnproven && all_children_proven(g, n)
}

/// Every implied, unproven node has an unproven premise.
pub open spec fn unproven_justified(g: Graph) -> bool {
    forall|n: NodeId|
        #![trigger g[n].state]
        g.dom().contains(n) && g[n].state == ProofState::ImpliedUnproven ==> !all_children_proven(g, n)
}

/// Every implied, proven node has all its premises proven.
pub open spec fn proven_justified(g: Graph) -> bool {
    forall|n: NodeId|
        #![trigger g[n].state]
        g.dom().contains(n) && g[n].state == ProofState::ImpliedProven ==> all_children_proven(g, n)
}

pub open spec fn structure_wf(g: Graph) -> bool {
    &&& g.dom().finite()
    &&& edges_closed(g)
    &&& edges_symmetric(g)
}

/// Changing one node's state keeps the edges, and what they guarantee.
pub(crate) proof fn lemma_restate_structure(g: Graph, id: NodeId, state: ProofState)
    requires
        structure_wf(g),
        g.dom().contains(id),
    ensures
        structure_wf(g.insert(id, with_state(g[id], state))),
{
    let g1 = g.insert(id, with_state(g[id], state));
    assert(g1.dom() =~= g.dom());
    assert forall|a: NodeId, b: NodeId| g1.dom().contains(a) && g1.dom().contains(b) implies (
    #[trigger] g1[a].children.contains(b) <==> g1[b].parents.contains(a)) by {
        assert(g[a].children.contains(b) <==> g[b].parents.contains(a));
    }
}

/// One step of the downward wave: an overstated node loses its proof.
pub(crate) proof fn lemma_step_down(start: Graph, g0: Graph, id: NodeId, rest: Seq<NodeId>)
    requires
        structure_wf(start),
        same_but_verdicts(start, g0),
        proven_set(g0).subset_of(proven_set(start)),
        forall|s: Set<NodeId>|
            s.subset_of(proven_set(start)) && #[trigger] closed_down(start, s) ==> s.subset_of(
                proven_set(g0),
            ),
        unproven_justified(g0),
        forall|n: NodeId| overstated(g0, n) ==> #[trigger] rest.push(id).contains(n),
        overstated(g0, id),
    ensures
        ({
            let g1 = g0.insert(id, with_state(g0[id], ProofState::ImpliedUnproven));
            &&& same_but_verdicts(start, g1)
            &&& proven_set(g1).subset_of(proven_set(start))
            &&& forall|s: Set<NodeId>|
                s.subset_of(proven_set(start)) && #[trigger] closed_down(start, s)
                    ==> s.subset_of(proven_set(g1))
            &&& unproven_justified(g1)
            &&& forall|n: NodeId| overstated(g1, n) ==> #[trigger] (rest + g0[id].parents).contains(n)
            &&& proven_set(g1) == proven_set(g0).remove(id)
            &&& proven_set(g0).contains(id)
        }),
{
    let g1 = g0.insert(id, with_state(g0[id], ProofState::ImpliedUnproven));
    let c0 = choose|c: NodeId| g0[id].children.contains(c) && !proven(g0, c);
    assert(c0 != id);
    assert(g1.dom() =~= g0.dom());
    assert(same_but_verdicts(start, g1));
    assert(proven_set(g1).subset_of(proven_set(start)));
    assert(proven_set(g0).contains(id));
    assert(proven_set(g1) =~= proven_set(g0).remove(id));
    assert forall|s: Set<NodeId>|
        s.subset_of(proven_set(start)) && #[trigger] closed_down(start, s) implies s.subset_of(
        proven_set(g1),
    ) by {
        assert(s.subset_of(proven_set(g0)));
        if s.contains(id) {
            assert(start[id].children.contains(c0));
            assert(s.contains(c0));
            assert(proven_set(g0).contains(c0));
        }
    }
    assert forall|n: NodeId|
        g1.dom().contains(n) && g1[n].state == ProofState::ImpliedUnproven implies !all_children_proven(
        g1,
        n,
    ) by {
        if n == id {
            assert(g1[n].children.contains(c0));
        } else {
            assert(!all_children_proven(g0, n));
            let c = choose|c: NodeId| g0[n].children.contains(c) && !proven(g0, c);
            assert(g1[n].children.contains(c));
        }
    }
    assert forall|n: NodeId| overstated(g1, n) implies #[trigger] (rest + g0[id].parents).contains(
        n,
    ) by {
        assert(n != id);
        let c = choose|c: NodeId| g1[n].children.contains(c) && !proven(g1, c);
        if all_children_proven(g0, n) {
            assert(c == id);
            assert(g0[n].children.contains(id));
            assert(g0[id].parents.contains(n));
            let k = choose|k: int| 0 <= k < g0[id].parents.len() && g0[id].parents[k] == n;
            assert((rest + g0[id].parents)[rest.len() + k] == n);
        } else {
            assert(overstated(g0, n));
            assert(rest.push(id).contains(n));
            let k = choose|k: int| 0 <= k < rest.push(id).len() && rest.push(id)[k] == n;
            assert(k < rest.len());
            assert((rest + g0[id].parents)[k] == n);
        }
    }
}

/// One step of the upward wave: an understated node gains its proof.
pub(crate) proof fn lemma_step_up(start: Graph, g0: Graph, id: NodeId, rest: Seq<NodeId>)
    requires
        structure_wf(start),
        same_but_verdicts(start, g0),
        proven_set(start).subset_of(proven_set(g0)),
        forall|s: Set<NodeId>|
            proven_set(start).subset_of(s) && #[trigger] closed_up(start, s) ==> proven_set(
                g0,
            ).subset_of(s),
        proven_justified(g0),
        forall|n: NodeId| understated(g0, n) ==> #[trigger] rest.push(id).contains(n),
        understated(g0, id),
    ensures
        ({
            let g1 = g0.insert(id, with_state(g0[id], ProofState::ImpliedProven));
            &&& same_but_verdicts(start, g1)
            &&& proven_set(start).subset_of(proven_set(g1))
            &&& forall|s: Set<NodeId>|
                proven_set(start).subset_of(s) && #[trigger] closed_up(start, s)
                    ==> proven_set(g1).subset_of(s)
            &&& proven_justified(g1)
            &&& forall|n: NodeId| understated(g1, n) ==> #[trigger] (rest + g0[id].parents).contains(n)
            &&& unproven_set(g1) == unproven_set(g0).remove(id)
            &&& unproven_set(g0).contains(id)
        }),
{
    let g1 = g0.insert(id, with_state(g0[id], ProofState::ImpliedProven));
    assert(proven_set(g1) =~= proven_set(g0).insert(id));
    assert(unproven_set(g1) =~= unproven_set(g0).remove(id));
    assert(g1.dom() =~= g0.dom());
    assert(same_but_verdicts(start, g1));
    assert(proven_set(start).subset_of(proven_set(g1)));
    assert(unproven_set(g0).contains(id));
    assert forall|s: Set<NodeId>|
        proven_set(start).subset_of(s) && #[trigger] closed_up(start, s) implies proven_set(
        g1,
    ).subset_of(s) by {
        assert(proven_set(g0).subset_of(s));
        assert forall|c: NodeId| #[trigger] start[id].children.contains(c) implies s.contains(c) by {
            assert(g0[id].children.contains(c));
            assert(proven_set(g0).contains(c));
        }
        assert(s.contains(id));
    }
    assert forall|n: NodeId|
        g1.dom().contains(n) && g1[n].state == ProofState::ImpliedProven implies all_children_proven(
        g1,
        n,
    ) by {
        if n != id {
            assert(all_children_proven(g0, n));
        }
        assert forall|c: NodeId| #[trigger] g1[n].children.contains(c) implies proven(g1, c) by {
            assert(g0[n].children.contains(c));
            if c != id {
                assert(proven(g0, c));
            }
        }
    }
    assert forall|n: NodeId| understated(g1, n) implies #[trigger] (rest + g0[id].parents).contains(
        n,
    ) by {
        assert(n != id);
        if !all_children_proven(g0, n) {
            let c = choose|c: NodeId| g0[n].children.contains(c) && !proven(g0, c);
            assert(g1[n].children.contains(c));
            assert(c == id);
            assert(g0[id].parents.contains(n));
            let k = choose|k: int| 0 <= k < g0[id].parents.len() && g0[id].parents[k] == n;
            assert((rest + g0[id].parents)[rest.len() + k] == n);
        } else {
            assert(understated(g0, n));
            assert(rest.push(id).contains(n));
            let k = choose|k: int| 0 <= k < rest.push(id).len() && rest.push(id)[k] == n;
            assert(k < rest.len());
            assert((rest + g0[id].parents)[k] == n);
        }
    }
}

pub(crate) proof fn lemma_same_structure(g1: Graph, g2: Graph)
    requires
        structure_wf(g1),
        same_but_verdicts(g1, g2),
    ensures
        structure_wf(g2),
{
    assert forall|a: NodeId, b: NodeId| g2.dom().contains(a) && g2.dom().contains(b) implies (
    #[trigger] g2[a].children.contains(b) <==> g2[b].parents.contains(a)) by {
        assert(g1[a].children.contains(b) <==> g1[b].parents.contains(a));
    }
    assert forall|a: NodeId, b: NodeId|
        g2.dom().contains(a) && #[trigger] g2[a].children.contains(b) implies g2.dom().contains(b) by {
        assert(g1[a].children.contains(b));
    }
    assert forall|a: NodeId, b: NodeId|
        g2.dom().contains(a) && #[trigger] g2[a].parents.contains(b) implies g2.dom().contains(b) by {
        assert(g1[a].parents.contains(b));
    }
}

/// A new state for one node that cannot add proven-ness leaves a graph ready
/// for the downward wave from that node's parents.
pub(crate) proof fn lemma_lower(g: Graph, id: NodeId, v: NodeView)
    requires
        graph_wf(g),
        g.dom().contains(id),
        v.parents == g[id].parents,
        v.children == g[id].children,
        v.state.proven() ==> g[id].state.proven(),
        v.state == ProofState::ImpliedProven ==> all_children_proven(g, id),
        v.state == ProofState::ImpliedUnproven ==> !all_children_proven(g, id),
    ensures
        structure_wf(g.insert(id, v)),
        unproven_justified(g.insert(id, v)),
        forall|n: NodeId| overstated(g.insert(id, v), n) ==> #[trigger] g[id].parents.contains(n),
{
    let g1 = g.insert(id, v);
    assert(g1.dom() =~= g.dom());
    assert forall|a: NodeId, b: NodeId| g1.dom().contains(a) && g1.dom().contains(b) implies (
    #[trigger] g1[a].children.contains(b) <==> g1[b].parents.contains(a)) by {
        assert(g[a].children.contains(b) <==> g[b].parents.contains(a));
    }
    assert forall|n: NodeId|
        g1.dom().contains(n) && g1[n].state == ProofState::ImpliedUnproven implies !all_children_proven(
        g1,
        n,
    ) by {
        assert(!all_children_proven(g, n));
        let c = choose|c: NodeId| g[n].children.contains(c) && !proven(g, c);
        assert(g1[n].children.contains(c));
    }
    assert forall|n: NodeId| overstated(g1, n) implies #[trigger] g[id].parents.contains(n) by {
        if n != id {
            assert(all_children_proven(g, n));
            let c = choose|c: NodeId| g1[n].children.contains(c) && !proven(g1, c);
            assert(g[n].children.contains(c));
            assert(c == id);
        }
    }
}

/// A new state for one node that cannot take proven-ness away leaves a graph
/// ready for the upward wave from that node's parents.
pub(crate) proof fn lemma_raise(g: Graph, id: NodeId, v: NodeView)
    requires
        graph_wf(g),
        g.dom().contains(id),
        v.parents == g[id].parents,
        v.children == g[id].children,
        g[id].state.proven() ==> v.state.proven(),
        v.state == ProofState::ImpliedProven ==> all_children_proven(g, id),
        v.state == ProofState::ImpliedUnproven ==> !all_children_proven(g, id),
    ensures
        structure_wf(g.insert(id, v)),
        proven_justified(g.insert(id, v)),
        forall|n: NodeId| understated(g.insert(id, v), n) ==> #[trigger] g[id].parents.contains(n),
{
    let g1 = g.insert(id, v);
    assert(g1.dom() =~= g.dom());
    assert forall|a: NodeId, b: NodeId| g1.dom().contains(a) && g1.dom().contains(b) implies (
    #[trigger] g1[a].children.contains(b) <==> g1[b].parents.contains(a)) by {
        assert(g[a].children.contains(b) <==> g[b].parents.contains(a));
    }
    assert forall|n: NodeId|
        g1.dom().contains(n) && g1[n].state == ProofState::ImpliedProven implies all_children_proven(
        g1,
        n,
    ) by {
        assert(all_children_proven(g, n));
        assert forall|c: NodeId| #[trigger] g1[n].children.contains(c) implies proven(g1, c) by {
            assert(g[n].children.contains(c));
        }
    }
    assert forall|n: NodeId| understated(g1, n) implies #[trigger] g[id].parents.contains(n) by {
        if n != id {
            assert(!all_children_proven(g, n));
            let c = choose|c: NodeId| g[n].children.contains(c) && !proven(g, c);
            assert(g1[n].children.contains(c));
            assert(c == id);
        }
    }
}

/// Settling a graph whose implied nodes already agree with their premises,
/// in either direction, leaves it as it is: propagation stops where
/// proven-ness does not change.
pub proof fn law_settled_graph_is_left_alone(g1: Graph, g2: Graph)
    requires
        graph_wf(g1),
        settled_down(g1, g2) || settled_up(g1, g2),
    ensures
        g2 == g1,
{
    assert(closed_down(g1, proven_set(g1))) by {
        assert forall|n: NodeId, c: NodeId|
            proven_set(g1).contains(n) && implied(g1, n) && #[trigger] g1[n].children.contains(
                c,
            ) implies proven_set(g1).contains(c) by {
            assert(all_children_proven(g1, n));
        }
    }
    assert(closed_up(g1, proven_set(g1))) by {
        assert forall|n: NodeId|
            #![trigger proven_set(g1).contains(n)]
            g1.dom().contains(n) && implied(g1, n) && (forall|c: NodeId| #[trigger]
                g1[n].children.contains(c) ==> proven_set(g1).contains(c)) implies proven_set(
            g1,
        ).contains(n) by {
            assert forall|c: NodeId| #[trigger] g1[n].children.contains(c) implies proven(g1, c) by {
                assert(proven_set(g1).contains(c));
            }
        }
    }
    assert(proven_set(g2) =~= proven_set(g1));
    assert(g2.dom() =~= g1.dom());
    assert forall|n: NodeId| #[trigger] g1.dom().contains(n) implies g2[n] == g1[n] by {
        assert(proven_set(g2).contains(n) == proven_set(g1).contains(n));
    }
    assert(g2 =~= g1);
}

/// A node linked to itself already agrees with its new premise.
pub(crate) proof fn lemma_self_link(g: Graph, p: NodeId)
    requires
        graph_wf(g),
        g.dom().contains(p),
    ensures
        graph_wf(linked(g, p, p)),
{
    let g1 = linked(g, p, p);
    lemma_link(g, p, p);
    lemma_push_contains(g[p].children, p);
    assert forall|n: NodeId| #![trigger g1[n].state] g1.dom().contains(n) && implied(g1, n)
        implies (proven(g1, n) <==> all_children_proven(g1, n)) by {
        assert(proven(g, n) <==> all_children_proven(g, n));
        if n == p {
            if proven(g, p) {
                assert forall|c: NodeId| #[trigger] g1[p].children.contains(c) implies proven(g1, c) by {
                    if c != p {
                        assert(g[p].children.contains(c));
                    }
                }
            } else {
                assert(g1[p].children.contains(p));
            }
        } else {
            if !all_children_proven(g, n) {
                let c = choose|c: NodeId| g[n].children.contains(c) && !proven(g, c);
                assert(g1[n].children.contains(c));
            }
        }
    }
}

pub(crate) proof fn lemma_push_contains(s: Seq<NodeId>, x: NodeId)
    ensures
        forall|y: NodeId| #[trigger] s.push(x).contains(y) <==> s.contains(y) || y == x,
{
    assert forall|y: NodeId| #[trigger] s.push(x).contains(y) <==> s.contains(y) || y == x by {
        if s.contains(y) {
            let k = choose|k: int| 0 <= k < s.len() && s[k] == y;
            assert(s.push(x)[k] == y);
        }
        if y == x {
            assert(s.push(x)[s.len() as int] == y);
        }
        if s.push(x).contains(y) && y != x {
            let k = choose|k: int| 0 <= k < s.push(x).len() && s.push(x)[k] == y;
            assert(s[k] == y);
        }
    }
}

pub(crate) proof fn lemma_settled_wf(start: Graph, g: Graph)
    requires
        structure_wf(start),
        settled_down(start, g) || settled_up(start, g),
    ensures
        graph_wf(g),
        g.dom() == start.dom(),
{
    lemma_same_structure(start, g);
}

/// A new premise leaves a graph ready for the downward wave from the parent.
pub(crate) proof fn lemma_link(g: Graph, p: NodeId, c: NodeId)
    requires
        graph_wf(g),
        g.dom().contains(p),
        g.dom().contains(c),
    ensures
        structure_wf(linked(g, p, c)),
        unproven_justified(linked(g, p, c)),
        forall|n: NodeId| overstated(linked(g, p, c), n) ==> n == p,
{
    let g1 = linked(g, p, c);
    assert(g1.dom() =~= g.dom());
    lemma_push_contains(g[p].children, c);
    lemma_push_contains(g[c].parents, p);
    lemma_push_contains(g[p].parents, p);
    assert forall|a: NodeId, b: NodeId| g1.dom().contains(a) && g1.dom().contains(b) implies (
    #[trigger] g1[a].children.contains(b) <==> g1[b].parents.contains(a)) by {
        assert(g[a].children.contains(b) <==> g[b].parents.contains(a));
    }
    assert forall|a: NodeId, b: NodeId|
        g1.dom().contains(a) && #[trigger] g1[a].children.contains(b) implies g1.dom().contains(b) by {
        if !(a == p && b == c) {
            assert(g[a].children.contains(b));
        }
    }
    assert forall|a: NodeId, b: NodeId|
        g1.dom().contains(a) && #[trigger] g1[a].parents.contains(b) implies g1.dom().contains(b) by {
        if !(a == c && b == p) {
            assert(g[a].parents.contains(b));
        }
    }
    assert forall|n: NodeId|
        g1.dom().contains(n) && g1[n].state == ProofState::ImpliedUnproven implies !all_children_proven(
        g1,
        n,
    ) by {
        assert(!all_children_proven(g, n));
        let d = choose|d: NodeId| g[n].children.contains(d) && !proven(g, d);
        assert(g1[n].children.contains(d));
    }
    assert forall|n: NodeId| overstated(g1, n) implies n == p by {
        if n != p {
            assert(all_children_proven(g, n));
            let d = choose|d: NodeId| g1[n].children.contains(d) && !proven(g1, d);
            assert(g[n].children.contains(d));
        }
    }
}

/// Taking away a premise leaves a graph ready for the downward wave from the
/// former parent's parents.
pub(crate) proof fn lemma_unlink(g: Graph, p: NodeId, c: NodeId)
    requires
        graph_wf(g),
        g.dom().contains(p),
        g.dom().contains(c),
    ensures
        structure_wf(unlinked(g, p, c)),
        unproven_justified(unlinked(g, p, c)),
        forall|n: NodeId| overstated(unlinked(g, p, c), n) ==> #[trigger] g[p].parents.contains(n),
{
    let g1 = unlinked(g, p, c);
    assert(g1.dom() =~= g.dom());
    lemma_remove_all(g[p].children, c);
    lemma_remove_all(g[c].parents, p);
    lemma_remove_all(g[p].parents, p);
    assert forall|a: NodeId, b: NodeId| g1.dom().contains(a) && g1.dom().contains(b) implies (
    #[trigger] g1[a].children.contains(b) <==> g1[b].parents.contains(a)) by {
        assert(g[a].children.contains(b) <==> g[b].parents.contains(a));
    }
    assert forall|a: NodeId, b: NodeId|
        g1.dom().contains(a) && #[trigger] g1[a].children.contains(b) implies g1.dom().contains(b) by {
        assert(g[a].children.contains(b));
    }
    assert forall|a: NodeId, b: NodeId|
        g1.dom().contains(a) && #[trigger] g1[a].parents.contains(b) implies g1.dom().contains(b) by {
        assert(g[a].parents.contains(b));
    }
    assert forall|n: NodeId|
        g1.dom().contains(n) && g1[n].state == ProofState::ImpliedUnproven implies !all_children_proven(
        g1,
        n,
    ) by {
        assert(n != p);
        assert(!all_children_proven(g, n));
        let d = choose|d: NodeId| g[n].children.contains(d) && !proven(g, d);
        assert(g1[n].children.contains(d));
        assert(!proven(g1, d));
    }
    assert forall|n: NodeId| overstated(g1, n) implies #[trigger] g[p].parents.contains(n) by {
        assert(n != p);
        assert(all_children_proven(g, n));
        let d = choose|d: NodeId| g1[n].children.contains(d) && !proven(g1, d);
        assert(g[n].children.contains(d));
        assert(d == p);
    }
}

/// Removing a node leaves a graph ready for the downward wave from the
/// parents of those of its parents that lost their verdict.
pub(crate) proof fn lemma_remove(g: Graph, x: NodeId)
    requires
        graph_wf(g),
        g.dom().contains(x),
    ensures
        structure_wf(removed(g, x)),
        unproven_justified(removed(g, x)),
        forall|n: NodeId|
            #![trigger removed(g, x)[n]]
            overstated(removed(g, x), n) ==> exists|k: NodeId|
                #![trigger g[k].parents.contains(n)]
                g[x].parents.contains(k) && k != x && implied(g, k) && g[k].children.contains(x)
                    && g[k].parents.contains(n),
{
    let g1 = removed(g, x);
    assert(g1.dom() =~= g.dom().remove(x));
    assert forall|n: NodeId| #[trigger] g1.dom().contains(n) implies g1[n] == detached(g[n], x)
        && (forall|y: NodeId| #[trigger] g1[n].children.contains(y) <==> g[n].children.contains(y)
        && y != x) && (forall|y: NodeId| #[trigger] g1[n].parents.contains(y) <==> g[n].parents.contains(
        y,
    ) && y != x) by {
        lemma_remove_all(g[n].children, x);
        lemma_remove_all(g[n].parents, x);
    }
    assert forall|a: NodeId, b: NodeId| g1.dom().contains(a) && g1.dom().contains(b) implies (
    #[trigger] g1[a].children.contains(b) <==> g1[b].parents.contains(a)) by {
        assert(g[a].children.contains(b) <==> g[b].parents.contains(a));
    }
    assert forall|a: NodeId, b: NodeId|
        g1.dom().contains(a) && #[trigger] g1[a].children.contains(b) implies g1.dom().contains(b) by {
        assert(g[a].children.contains(b));
    }
    assert forall|a: NodeId, b: NodeId|
        g1.dom().contains(a) && #[trigger] g1[a].parents.contains(b) implies g1.dom().contains(b) by {
        assert(g[a].parents.contains(b));
    }
    assert forall|n: NodeId|
        g1.dom().contains(n) && g1[n].state == ProofState::ImpliedUnproven implies !all_children_proven(
        g1,
        n,
    ) by {
        assert(!g[n].children.contains(x));
        assert(g[n].state == ProofState::ImpliedUnproven);
        assert(!all_children_proven(g, n));
        let d = choose|d: NodeId| g[n].children.contains(d) && !proven(g, d);
        assert(d != x);
        assert(g1[n].children.contains(d));
        assert(!proven(g1, d));
    }
    assert forall|n: NodeId| #![trigger g1[n]] overstated(g1, n) implies exists|k: NodeId|
        #![trigger g[k].parents.contains(n)]
        g[x].parents.contains(k) && k != x && implied(g, k) && g[k].children.contains(x)
            && g[k].parents.contains(n) by {
        assert(!g[n].children.contains(x));
        assert(g[n].state == ProofState::ImpliedProven);
        assert(all_children_proven(g, n));
        let d = choose|d: NodeId| g1[n].children.contains(d) && !proven(g1, d);
        assert(g[n].children.contains(d));
        assert(proven(g, d));
        assert(g[d].children.contains(x));
        assert(g[x].parents.contains(d));
        assert(g[d].parents.contains(n));
    }
}

/// A set of nodes that holds the parents of each of its members.
pub open spec fn upward_closed(g: Graph, above: Set<NodeId>) -> bool {
    forall|n: NodeId, p: NodeId|
        above.contains(n) && g.dom().contains(n) && #[trigger] g[n].parents.contains(p)
            ==> above.contains(p)
}

/// A change of state at one node moves only that node and the nodes above
/// it: whatever lies outside a set that holds the node's parents and the
/// parents of each of its members keeps its state, in either wave.
pub proof fn law_settling_stays_above(
    g: Graph,
    id: NodeId,
    v: NodeView,
    g2: Graph,
    above: Set<NodeId>,
    n: NodeId,
)
    requires
        graph_wf(g),
        g.dom().contains(id),
        v.text == g[id].text,
        v.parents == g[id].parents,
        v.children == g[id].children,
        forall|p: NodeId| #[trigger] g[id].parents.contains(p) ==> above.contains(p),
        upward_closed(g, above),
        settled_down(g.insert(id, v), g2) || settled_up(g.insert(id, v), g2),
        g.dom().contains(n),
        n != id,
        !above.contains(n),
    ensures
        g2[n] == g[n],
{
    let start = g.insert(id, v);
    assert(start.dom() =~= g.dom());
    let outside = |m: NodeId| g.dom().contains(m) && m != id && !above.contains(m);
    // A premise of a node outside the upward-closed set is itself outside it.
    assert forall|m: NodeId, c: NodeId|
        outside(m) && #[trigger] g[m].children.contains(c) implies outside(c) by {
        assert(g.dom().contains(c));
        assert(g[c].parents.contains(m));
        if c == id {
            assert(above.contains(m));
        }
        if above.contains(c) {
            assert(above.contains(m));
        }
    }
    if settled_down(start, g2) {
        let s = Set::new(|m: NodeId| outside(m) && proven(g, m));
        assert(s.subset_of(proven_set(start)));
        assert(closed_down(start, s)) by {
            assert forall|m: NodeId, c: NodeId|
                s.contains(m) && implied(start, m) && #[trigger] start[m].children.contains(c)
                    implies s.contains(c) by {
                assert(g[m].children.contains(c));
                assert(all_children_proven(g, m));
            }
        }
        assert(s.contains(n) ==> proven_set(g2).contains(n));
        assert(proven_set(g2).contains(n) ==> proven_set(start).contains(n));
    } else {
        let s = Set::new(|m: NodeId| !outside(m) || proven(g, m));
        assert(proven_set(start).subset_of(s));
        assert(closed_up(start, s)) by {
            assert forall|m: NodeId|
                #![trigger s.contains(m)]
                start.dom().contains(m) && implied(start, m) && (forall|c: NodeId| #[trigger]
                    start[m].children.contains(c) ==> s.contains(c)) implies s.contains(m) by {
                if outside(m) {
                    assert forall|c: NodeId| #[trigger] g[m].children.contains(c) implies proven(
                        g,
                        c,
                    ) by {
                        assert(start[m].children.contains(c));
                        assert(s.contains(c));
                    }
                    assert(all_children_proven(g, m));
                }
            }
        }
        assert(proven_set(g2).contains(n) ==> s.contains(n));
        assert(proven_set(start).contains(n) ==> proven_set(g2).contains(n));
    }
    assert(proven(g2, n) == proven(g, n));
    assert(g2[n].state == g[n].state);
    assert(g2[n] =~= g[n]);
}

} // verus!
