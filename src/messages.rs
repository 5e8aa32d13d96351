//! What clients send to a game and what a game sends back.
use vstd::prelude::*;

use crate::arena::NodeId;
use crate::graph::{ProofError, ProofState, TreeView};

verus! {

/// One client's connection to a game.
pub type PlayerId = u64;

/// One statement as clients see it.
pub struct StatementDTO {
    pub id: NodeId,
    pub statement: String,
    pub state: ProofState,
    pub parents: Vec<NodeId>,
    pub children: Vec<NodeId>,
}

/// The whole graph as clients see it.
pub struct TreeStateDTO {
    pub statements: Vec<StatementDTO>,
    pub root: NodeId,
}

/// `d` lists every node of `t` once, as it stands.
pub open spec fn snapshot_of(d: TreeStateDTO, t: TreeView) -> bool {
    &&& d.root == t.root
    &&& forall|i: int, j: int|
        0 <= i < j < d.statements.len() ==> #[trigger] d.statements[i].id
            != #[trigger] d.statements[j].id
    &&& forall|k: NodeId|
        t.nodes.contains_key(k) <==> exists|i: int|
            0 <= i < d.statements.len() && #[trigger] d.statements[i].id == k
    &&& forall|i: int|
        #![trigger d.statements[i]]
        0 <= i < d.statements.len() ==> {
            let s = d.statements[i];
            &&& s.statement@ == t.nodes[s.id].text
            &&& s.state == t.nodes[s.id].state
            &&& s.parents@ == t.nodes[s.id].parents
            &&& s.children@ == t.nodes[s.id].children
        }
}

/// Messages from a game to its clients.
pub enum ServerMessage {
    NewNodeId(NodeId),
    GameState(TreeStateDTO),
    Comment { id: NodeId, comment: String, success: bool },
    Win,
    AICooldown { seconds: u64 },
    Error(ProofError),
}

/// Commands from a client to a game.
pub enum ClientMessage {
    GetGameState,
    Add { statement: String },
    Delete { id: NodeId },
    Edit { id: NodeId, statement: String },
    Link { premise: NodeId, conclusion: NodeId },
    Unlink { premise: NodeId, conclusion: NodeId },
    ProveDirect { id: NodeId },
    ProveImplication { id: NodeId },
}

} // verus!
