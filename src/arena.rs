//! Storage of statement nodes in a generational arena.
//!
//! The arena itself is opaque; what it holds is named by `arena_nodes`, and
//! the counter that it bumps on every removal by `arena_generation`.
use generational_arena::{Arena, Index};
use vstd::prelude::*;

use crate::graph::{empty_graph, NodeView, StatementNode};

verus! {

#[verifier::external_type_specification]
#[verifier::external_body]
#[verifier::reject_recursive_types(T)]
pub struct ExArena<T>(Arena<T>);

/// A stable handle of a statement: slot and generation of an arena entry.
#[derive(Clone, Copy, Debug, PartialEq, Eq, Hash, Structural)]
pub struct NodeId {
    pub index: usize,
    pub generation: u64,
}

/// The live entries of an arena, by handle.
pub uninterp spec fn arena_nodes(a: Arena<StatementNode>) -> Map<NodeId, NodeView>;

/// The arena's generation counter, which every successful removal increments.
pub uninterp spec fn arena_generation(a: Arena<StatementNode>) -> u64;

/// Relies on `Arena::new`: an empty arena whose generation counter is zero.
#[verifier::external_body]
pub(crate) fn arena_new() -> (r: Arena<StatementNode>)
    ensures
        arena_nodes(r) == empty_graph(),
        arena_generation(r) == 0,
{
    Arena::new()
}

/// Relies on `Arena::insert`: the value goes into a free slot, so the handle
/// returned is not live before, and the handle carries the arena's current
/// generation; the generation counter is left alone.
#[verifier::external_body]
pub(crate) fn arena_insert(a: &mut Arena<StatementNode>, node: StatementNode) -> (id: NodeId)
    ensures
        !arena_nodes(*old(a)).contains_key(id),
        id.generation == arena_generation(*old(a)),
        arena_nodes(*final(a)) == arena_nodes(*old(a)).insert(id, node@),
        arena_generation(*final(a)) == arena_generation(*old(a)),
{
    let (index, generation) = a.insert(node).into_raw_parts();
    NodeId { index, generation }
}

/// Relies on `Arena::remove`: a live entry is taken out and the generation
/// counter incremented (it would overflow at `u64::MAX`); otherwise nothing
/// changes.
#[verifier::external_body]
pub(crate) fn arena_remove(a: &mut Arena<StatementNode>, id: NodeId) -> (r: Option<StatementNode>)
    requires
        arena_generation(*old(a)) < u64::MAX,
    ensures
        match r {
            Some(n) => {
                &&& arena_nodes(*old(a)).contains_key(id)
                &&& n@ == arena_nodes(*old(a))[id]
                &&& arena_nodes(*final(a)) == arena_nodes(*old(a)).remove(id)
                &&& arena_generation(*final(a)) == arena_generation(*old(a)) + 1
            },
            None => {
                &&& !arena_nodes(*old(a)).contains_key(id)
                &&& arena_nodes(*final(a)) == arena_nodes(*old(a))
                &&& arena_generation(*final(a)) == arena_generation(*old(a))
            },
        },
{
    a.remove(Index::from_raw_parts(id.index, id.generation))
}

/// Relies on `Arena::contains`: whether the handle is live.
#[verifier::external_body]
pub(crate) fn arena_contains(a: &Arena<StatementNode>, id: NodeId) -> (r: bool)
    ensures
        r == arena_nodes(*a).contains_key(id),
{
    a.contains(Index::from_raw_parts(id.index, id.generation))
}

/// Relies on `Arena`'s `Index` impl: the entry of a live handle.
#[verifier::external_body]
pub(crate) fn arena_get(a: &Arena<StatementNode>, id: NodeId) -> (r: &StatementNode)
    requires
        arena_nodes(*a).contains_key(id),
    ensures
        r@ == arena_nodes(*a)[id],
{
    &a[Index::from_raw_parts(id.index, id.generation)]
}

/// Relies on `Arena`'s `IndexMut` impl: the entry of a live handle, in place;
/// whatever is written through it becomes that entry.
#[verifier::external_body]
pub(crate) fn arena_get_mut(a: &mut Arena<StatementNode>, id: NodeId) -> (r: &mut StatementNode)
    requires
        arena_nodes(*old(a)).contains_key(id),
    ensures
        (*r)@ == arena_nodes(*old(a))[id],
        arena_nodes(*final(a)) == arena_nodes(*old(a)).insert(id, (*final(r))@),
        arena_generation(*final(a)) == arena_generation(*old(a)),
{
    &mut a[Index::from_raw_parts(id.index, id.generation)]
}

/// Relies on `Arena::iter`: every live handle, once each.
#[verifier::external_body]
pub(crate) fn arena_ids(a: &Arena<StatementNode>) -> (r: Vec<NodeId>)
    ensures
        r@.no_duplicates(),
        forall|k: NodeId| r@.contains(k) <==> arena_nodes(*a).contains_key(k),
{
    a.iter().map(|(i, _)| {
        let (index, generation) = i.into_raw_parts();
        NodeId { index, generation }
    }).collect()
}

} // verus!
