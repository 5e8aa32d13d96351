//! One game: a proof graph and an adjudicator, driven by client commands.
//!
//! A command either finishes at once or asks for an oracle verdict; the
//! caller puts the request to the oracle and hands the answer back.
use vstd::prelude::*;

use crate::adjudicator::{
    cooldown_end, cooldown_message, direct_user, implication_system, implication_user,
    direct_system, on_cooldown, request_notice, result_view, texts, verdict, NOTICE_MID,
    NOTICE_PRE, NO_PREMISES, OracleRequest, AI,
};
use crate::arena::NodeId;
use crate::graph::{
    all_children_proven, edited, fresh_node, link_outcome, linked, premise_texts, proven,
    proven_by_implication, proven_directly, remove_outcome, removed, unlink_outcome, unlinked,
    ProofError, TreeState, TreeView,
};
use crate::propagation::{settled_down, settled_up};
use crate::messages::{snapshot_of, ClientMessage, PlayerId, ServerMessage};

verus! {

/// Who receives a message.
#[derive(Clone, Copy, Debug, PartialEq, Eq, Structural)]
pub enum Recipient {
    All,
    Player(PlayerId),
}

pub struct Outbound {
    pub to: Recipient,
    pub msg: ServerMessage,
}

#[derive(Clone, Copy, Debug, PartialEq, Eq, Structural)]
pub enum ProofKind {
    Direct,
    Implication,
}

/// A verdict that a command waits for.
pub struct Consultation {
    pub id: NodeId,
    pub kind: ProofKind,
    pub player: PlayerId,
    pub request: OracleRequest,
}

/// What a command leaves to do: messages to deliver, and perhaps a verdict
/// to obtain first.
pub enum Step {
    Done(Vec<Outbound>),
    Consult(Consultation, Vec<Outbound>),
}

pub open spec fn reply(player: PlayerId, msg: ServerMessage) -> Outbound {
    Outbound { to: Recipient::Player(player), msg }
}

pub open spec fn to_all(msg: ServerMessage) -> Outbound {
    Outbound { to: Recipient::All, msg }
}

/// `m` carries the graph `t` as it stands.
pub open spec fn shows(m: ServerMessage, t: TreeView) -> bool {
    m matches ServerMessage::GameState(d) && snapshot_of(d, t)
}

/// The graph as it stands goes to everyone, then the win notice if the
/// topic is proven.
pub open spec fn announcement(out: Seq<Outbound>, t: TreeView) -> bool {
    &&& out.len() == if proven(t.nodes, t.root) {
        2int
    } else {
        1int
    }
    &&& out[0].to == Recipient::All
    &&& shows(out[0].msg, t)
    &&& proven(t.nodes, t.root) ==> out[1] == to_all(ServerMessage::Win)
}

/// `out` is a single comment to `player` on `id`.
pub open spec fn comment_to(
    out: Outbound,
    player: PlayerId,
    id: NodeId,
    text: Seq<char>,
    success: bool,
) -> bool {
    &&& out.to == Recipient::Player(player)
    &&& out.msg matches ServerMessage::Comment { id: i, comment, success: s } && i == id
        && comment@ == text && s == success
}

/// A structural command's outcome: on refusal the error goes to the
/// requester alone and the graph stays; on success everyone hears of it.
pub open spec fn structural_outcome(
    out: Seq<Outbound>,
    player: PlayerId,
    result: Result<(), ProofError>,
    old_tree: TreeView,
    new_tree: TreeView,
) -> bool {
    match result {
        Ok(()) => announcement(out, new_tree),
        Err(e) => out == seq![reply(player, ServerMessage::Error(e))] && new_tree == old_tree,
    }
}

/// `out` is a comment to everyone on `id`.
pub open spec fn comment_to_all(out: Outbound, id: NodeId, text: Seq<char>, success: bool) -> bool {
    &&& out.to == Recipient::All
    &&& out.msg matches ServerMessage::Comment { id: i, comment, success: s } && i == id
        && comment@ == text && s == success
}

/// The comment that tells everyone what is put to the oracle.
pub open spec fn notice_text(request: OracleRequest) -> Seq<char> {
    NOTICE_PRE@ + request.system_message@ + NOTICE_MID@ + request.user_message@
}

/// The whole seconds of cooldown left at `now`.
pub open spec fn seconds_left(ai: AI, now: u64) -> nat {
    ((ai.cooldown_until - now) / 1000) as nat
}

/// A request is put to the oracle: everyone hears of the cooldown it starts
/// and of what is asked.
pub open spec fn consults(
    r: Step,
    before: AI,
    after: AI,
    id: NodeId,
    kind: ProofKind,
    player: PlayerId,
    now: u64,
    system: Seq<char>,
    user: Seq<char>,
) -> bool {
    &&& step_messages(r).len() == 2
    &&& step_messages(r)[0] == to_all(
        ServerMessage::AICooldown { seconds: before.max_ai_cooldown_seconds },
    )
    &&& r matches Step::Consult(c, _) && c.id == id && c.kind == kind && c.player == player
        && c.request.system_message@ == system && c.request.user_message@ == user
        && comment_to_all(step_messages(r)[1], id, notice_text(c.request), true)
    &&& after.cooldown_until == cooldown_end(now, before.max_ai_cooldown_seconds)
    &&& after.max_ai_cooldown_seconds == before.max_ai_cooldown_seconds
}

/// A prove command refused before any request: only the requester hears
/// why, and the adjudicator is left as it was.
pub open spec fn refused_with(r: Step, before: AI, after: AI, msg: Outbound) -> bool {
    &&& r is Done
    &&& step_messages(r) == seq![msg]
    &&& after == before
}

/// What a command to prove `id` by itself does: refuse a missing node or a
/// running cooldown, else consult the oracle.
pub open spec fn direct_outcome(
    t: TreeView,
    before: AI,
    after: AI,
    id: NodeId,
    player: PlayerId,
    now: u64,
    r: Step,
) -> bool {
    if !t.nodes.contains_key(id) {
        refused_with(r, before, after, reply(player, ServerMessage::Error(ProofError::NoSuchNode(id))))
    } else if on_cooldown(before, now) {
        &&& refused_with(r, before, after, step_messages(r)[0])
        &&& comment_to(step_messages(r)[0], player, id, cooldown_message(seconds_left(before, now)), false)
    } else {
        consults(r, before, after, id, ProofKind::Direct, player, now, direct_system(), direct_user(t.nodes[id].text))
    }
}

/// What a command to prove `id` from its premises does: refuse a missing
/// node, a node without premises or a running cooldown, else consult the
/// oracle.
pub open spec fn implication_outcome(
    t: TreeView,
    before: AI,
    after: AI,
    id: NodeId,
    player: PlayerId,
    now: u64,
    r: Step,
) -> bool {
    if !t.nodes.contains_key(id) {
        refused_with(r, before, after, reply(player, ServerMessage::Error(ProofError::NoSuchNode(id))))
    } else if t.nodes[id].children.len() == 0 {
        &&& refused_with(r, before, after, step_messages(r)[0])
        &&& comment_to(step_messages(r)[0], player, id, NO_PREMISES@, false)
    } else if on_cooldown(before, now) {
        &&& refused_with(r, before, after, step_messages(r)[0])
        &&& comment_to(step_messages(r)[0], player, id, cooldown_message(seconds_left(before, now)), false)
    } else {
        consults(
            r,
            before,
            after,
            id,
            ProofKind::Implication,
            player,
            now,
            implication_system(),
            implication_user(premise_texts(t.nodes, id), t.nodes[id].text),
        )
    }
}

pub struct GameState {
    pub tree: TreeState,
    pub ai: AI,
}

pub open spec fn step_messages(s: Step) -> Seq<Outbound> {
    match s {
        Step::Done(out) => out@,
        Step::Consult(_, out) => out@,
    }
}

impl GameState {
    pub open spec fn wf(&self) -> bool {
        self.tree.wf()
    }

    pub fn new(root_statement: String, max_ai_cooldown_seconds: u64) -> (r: GameState)
        ensures
            r.wf(),
            r.tree@.nodes == map![r.tree@.root => fresh_node(root_statement@)],
            r.tree.removal_count() == 0,
            r.ai == AI::new_spec(max_ai_cooldown_seconds),
    {
        GameState { tree: TreeState::new(root_statement), ai: AI::new(max_ai_cooldown_seconds) }
    }

    /// Appends the graph, and the win notice if the topic is proven.
    fn announce(&self, out: &mut Vec<Outbound>)
        requires
            self.tree.wf(),
        ensures
            final(out)@.len() >= old(out)@.len(),
            final(out)@.subrange(0, old(out)@.len() as int) == old(out)@,
            announcement(final(out)@.subrange(old(out)@.len() as int, final(out)@.len() as int), self.tree@),
    {
        let ghost before = out@;
        out.push(Outbound { to: Recipient::All, msg: ServerMessage::GameState(self.tree.as_dto()) });
        if self.tree.proof_complete() {
            out.push(Outbound { to: Recipient::All, msg: ServerMessage::Win });
        }
        assert(out@.subrange(0, before.len() as int) =~= before);
    }

    /// Delivers the outcome of a structural command.
    fn conclude(&self, result: Result<(), ProofError>, player: PlayerId) -> (r: Step)
        requires
            self.tree.wf(),
        ensures
            r is Done,
            match result {
                Ok(()) => announcement(step_messages(r), self.tree@),
                Err(e) => step_messages(r) == seq![reply(player, ServerMessage::Error(e))],
            },
    {
        let mut out: Vec<Outbound> = Vec::new();
        match result {
            Ok(()) => {
                self.announce(&mut out);
                assert(out@.subrange(0, out@.len() as int) =~= out@);
            },
            Err(e) => {
                out.push(Outbound { to: Recipient::Player(player), msg: ServerMessage::Error(e) });
                assert(out@ =~= seq![reply(player, ServerMessage::Error(e))]);
            },
        }
        Step::Done(out)
    }

    /// Asks for a verdict on a statement by itself. A missing node or a
    /// running cooldown is reported to the requester alone; otherwise
    /// everyone hears of the new cooldown and of the request.
    pub fn prove_direct(&mut self, id: NodeId, player_id: PlayerId, now: u64) -> (r: Step)
        requires
            old(self).wf(),
        ensures
            final(self).tree == old(self).tree,
            direct_outcome(old(self).tree@, old(self).ai, final(self).ai, id, player_id, now, r),
    {
        let mut out: Vec<Outbound> = Vec::new();
        let statement = match self.tree.get_statement(id) {
            Ok(s) => s,
            Err(e) => {
                out.push(Outbound { to: Recipient::Player(player_id), msg: ServerMessage::Error(e) });
                assert(out@ =~= seq![reply(player_id, ServerMessage::Error(ProofError::NoSuchNode(id)))]);
                return Step::Done(out);
            },
        };
        match self.ai.check_statement(statement, now) {
            Err(m) => {
                out.push(
                    Outbound {
                        to: Recipient::Player(player_id),
                        msg: ServerMessage::Comment { id, comment: m, success: false },
                    },
                );
                assert(out@ =~= seq![out@[0]]);
                Step::Done(out)
            },
            Ok(request) => {
                self.announce_request(id, &request, &mut out);
                Step::Consult(
                    Consultation { id, kind: ProofKind::Direct, player: player_id, request },
                    out,
                )
            },
        }
    }

    /// Tells everyone of the cooldown that a request starts, and of the request.
    fn announce_request(&self, id: NodeId, request: &OracleRequest, out: &mut Vec<Outbound>)
        requires
            old(out)@.len() == 0,
        ensures
            final(out)@.len() == 2,
            final(out)@[0] == to_all(
                ServerMessage::AICooldown { seconds: self.ai.max_ai_cooldown_seconds },
            ),
            comment_to_all(final(out)@[1], id, notice_text(*request), true),
    {
        out.push(
            Outbound {
                to: Recipient::All,
                msg: ServerMessage::AICooldown { seconds: self.ai.max_ai_cooldown_seconds },
            },
        );
        out.push(
            Outbound {
                to: Recipient::All,
                msg: ServerMessage::Comment { id, comment: request_notice(request), success: true },
            },
        );
    }

    /// Asks for a verdict on a statement as following from its premises. A
    /// missing node, a node without premises or a running cooldown is
    /// reported to the requester alone; otherwise everyone hears of the new
    /// cooldown and of the request.
    pub fn prove_implication(&mut self, id: NodeId, player_id: PlayerId, now: u64) -> (r: Step)
        requires
            old(self).wf(),
        ensures
            final(self).tree == old(self).tree,
            implication_outcome(old(self).tree@, old(self).ai, final(self).ai, id, player_id, now, r),
    {
        let mut out: Vec<Outbound> = Vec::new();
        let conclusion = match self.tree.get_statement(id) {
            Ok(s) => s,
            Err(e) => {
                out.push(Outbound { to: Recipient::Player(player_id), msg: ServerMessage::Error(e) });
                assert(out@ =~= seq![reply(player_id, ServerMessage::Error(ProofError::NoSuchNode(id)))]);
                return Step::Done(out);
            },
        };
        let premises = match self.tree.get_premises(id) {
            Ok(p) => p,
            Err(e) => {
                out.push(Outbound { to: Recipient::Player(player_id), msg: ServerMessage::Error(e) });
                return Step::Done(out);
            },
        };
        proof {
            assert(texts(premises@) =~= premise_texts(self.tree@.nodes, id));
        }
        match self.ai.check_implication(&premises, conclusion, now) {
            Err(m) => {
                out.push(
                    Outbound {
                        to: Recipient::Player(player_id),
                        msg: ServerMessage::Comment { id, comment: m, success: false },
                    },
                );
                assert(out@ =~= seq![out@[0]]);
                Step::Done(out)
            },
            Ok(request) => {
                self.announce_request(id, &request, &mut out);
                Step::Consult(
                    Consultation { id, kind: ProofKind::Implication, player: player_id, request },
                    out,
                )
            },
        }
    }

    /// Handles one command of `player_id` at time `now`.
    pub fn on_incoming_message(
        &mut self,
        incoming_message: ClientMessage,
        player_id: PlayerId,
        now: u64,
    ) -> (r: Step)
        requires
            old(self).wf(),
            incoming_message matches ClientMessage::Delete { id } ==> (remove_outcome(
                old(self).tree@,
                id,
            ) is Ok ==> old(self).tree.removal_count() < u64::MAX),
        ensures
            final(self).wf(),
            final(self).tree@.root == old(self).tree@.root,
            final(self).ai.max_ai_cooldown_seconds == old(self).ai.max_ai_cooldown_seconds,
            !(incoming_message is Delete) ==> final(self).tree.removal_count() == old(
                self,
            ).tree.removal_count(),
            match incoming_message {
                ClientMessage::GetGameState => {
                    &&& r is Done
                    &&& final(self).tree@ == old(self).tree@
                    &&& final(self).ai == old(self).ai
                    &&& step_messages(r).len() == 1
                    &&& step_messages(r)[0].to == Recipient::Player(player_id)
                    &&& shows(step_messages(r)[0].msg, old(self).tree@)
                },
                ClientMessage::Add { statement } => {
                    &&& r is Done
                    &&& final(self).ai == old(self).ai
                    &&& step_messages(r).len() >= 1
                    &&& step_messages(r)[0].to == Recipient::Player(player_id)
                    &&& step_messages(r)[0].msg matches ServerMessage::NewNodeId(id)
                        && !old(self).tree@.nodes.contains_key(id) && final(self).tree@.nodes
                        == old(self).tree@.nodes.insert(id, fresh_node(statement@))
                    &&& announcement(
                        step_messages(r).subrange(1, step_messages(r).len() as int),
                        final(self).tree@,
                    )
                },
                ClientMessage::Delete { id } => {
                    &&& r is Done
                    &&& final(self).ai == old(self).ai
                    &&& structural_outcome(
                        step_messages(r),
                        player_id,
                        remove_outcome(old(self).tree@, id),
                        old(self).tree@,
                        final(self).tree@,
                    )
                    &&& remove_outcome(old(self).tree@, id) is Ok ==> settled_down(
                        removed(old(self).tree@.nodes, id),
                        final(self).tree@.nodes,
                    )
                    &&& final(self).tree.removal_count() == old(self).tree.removal_count() + if remove_outcome(
                        old(self).tree@,
                        id,
                    ) is Ok {
                        1int
                    } else {
                        0int
                    }
                },
                ClientMessage::Edit { id, statement } => {
                    &&& r is Done
                    &&& final(self).ai == old(self).ai
                    &&& structural_outcome(
                        step_messages(r),
                        player_id,
                        if old(self).tree@.nodes.contains_key(id) {
                            Ok(())
                        } else {
                            Err(ProofError::NoSuchNode(id))
                        },
                        old(self).tree@,
                        final(self).tree@,
                    )
                    &&& old(self).tree@.nodes.contains_key(id) ==> settled_down(
                        edited(old(self).tree@.nodes, id, statement@),
                        final(self).tree@.nodes,
                    )
                },
                ClientMessage::Link { premise, conclusion } => {
                    &&& r is Done
                    &&& final(self).ai == old(self).ai
                    &&& structural_outcome(
                        step_messages(r),
                        player_id,
                        link_outcome(old(self).tree@.nodes, conclusion, premise),
                        old(self).tree@,
                        final(self).tree@,
                    )
                    &&& link_outcome(old(self).tree@.nodes, conclusion, premise) is Ok
                        ==> settled_down(
                        linked(old(self).tree@.nodes, conclusion, premise),
                        final(self).tree@.nodes,
                    )
                },
                ClientMessage::Unlink { premise, conclusion } => {
                    &&& r is Done
                    &&& final(self).ai == old(self).ai
                    &&& structural_outcome(
                        step_messages(r),
                        player_id,
                        unlink_outcome(old(self).tree@.nodes, conclusion, premise),
                        old(self).tree@,
                        final(self).tree@,
                    )
                    &&& unlink_outcome(old(self).tree@.nodes, conclusion, premise) is Ok ==> if old(
                        self,
                    ).tree@.nodes[conclusion].children.contains(premise) {
                        settled_down(
                            unlinked(old(self).tree@.nodes, conclusion, premise),
                            final(self).tree@.nodes,
                        )
                    } else {
                        final(self).tree@ == old(self).tree@
                    }
                },
                ClientMessage::ProveDirect { id } => {
                    &&& final(self).tree == old(self).tree
                    &&& direct_outcome(old(self).tree@, old(self).ai, final(self).ai, id, player_id, now, r)
                },
                ClientMessage::ProveImplication { id } => {
                    &&& final(self).tree == old(self).tree
                    &&& implication_outcome(
                        old(self).tree@,
                        old(self).ai,
                        final(self).ai,
                        id,
                        player_id,
                        now,
                        r,
                    )
                },
            },
    {
        match incoming_message {
            ClientMessage::GetGameState => {
                let mut out: Vec<Outbound> = Vec::new();
                out.push(
                    Outbound {
                        to: Recipient::Player(player_id),
                        msg: ServerMessage::GameState(self.tree.as_dto()),
                    },
                );
                Step::Done(out)
            },
            ClientMessage::Add { statement } => {
                let id = self.tree.add_node(statement);
                let mut out: Vec<Outbound> = Vec::new();
                out.push(
                    Outbound { to: Recipient::Player(player_id), msg: ServerMessage::NewNodeId(id) },
                );
                let ghost first = out@;
                self.announce(&mut out);
                assert(out@[0] == out@.subrange(0, 1)[0]);
                assert(out@[0] == first[0]);
                Step::Done(out)
            },
            ClientMessage::Delete { id } => {
                let result = self.tree.remove_node(id);
                self.conclude(result, player_id)
            },
            ClientMessage::Edit { id, statement } => {
                let result = self.tree.change_node_statement(id, statement);
                self.conclude(result, player_id)
            },
            ClientMessage::Link { premise, conclusion } => {
                let result = self.tree.link(conclusion, premise);
                self.conclude(result, player_id)
            },
            ClientMessage::Unlink { premise, conclusion } => {
                let result = self.tree.unlink(conclusion, premise);
                self.conclude(result, player_id)
            },
            ClientMessage::ProveDirect { id } => self.prove_direct(id, player_id, now),
            ClientMessage::ProveImplication { id } => self.prove_implication(id, player_id, now),
        }
    }

    /// Applies the oracle's answer to a consultation. The requester hears the
    /// explanation; on acceptance the graph changes and everyone hears of it.
    pub fn on_verdict(&mut self, consultation: Consultation, answer: Result<String, String>) -> (r:
        Vec<Outbound>)
        requires
            old(self).wf(),
        ensures
            final(self).wf(),
            final(self).ai == old(self).ai,
            final(self).tree@.root == old(self).tree@.root,
            final(self).tree.removal_count() == old(self).tree.removal_count(),
            !old(self).tree@.nodes.contains_key(consultation.id) ==> r@ == seq![
                reply(consultation.player, ServerMessage::Error(ProofError::NoSuchNode(consultation.id))),
            ] && final(self).tree@ == old(self).tree@,
            old(self).tree@.nodes.contains_key(consultation.id) && verdict(result_view(answer)) is Err
                ==> r@.len() == 1 && comment_to(
                r@[0],
                consultation.player,
                consultation.id,
                verdict(result_view(answer))->Err_0,
                false,
            ) && final(self).tree@ == old(self).tree@,
            old(self).tree@.nodes.contains_key(consultation.id) && verdict(result_view(answer)) is Ok
                ==> {
                &&& r@.len() >= 1
                &&& comment_to(
                    r@[0],
                    consultation.player,
                    consultation.id,
                    verdict(result_view(answer))->Ok_0,
                    true,
                )
                &&& announcement(r@.subrange(1, r@.len() as int), final(self).tree@)
                &&& consultation.kind == ProofKind::Direct ==> settled_up(
                    proven_directly(old(self).tree@.nodes, consultation.id),
                    final(self).tree@.nodes,
                )
                &&& consultation.kind == ProofKind::Implication && all_children_proven(
                    old(self).tree@.nodes,
                    consultation.id,
                ) ==> settled_up(
                    proven_by_implication(old(self).tree@.nodes, consultation.id),
                    final(self).tree@.nodes,
                )
                &&& consultation.kind == ProofKind::Implication && !all_children_proven(
                    old(self).tree@.nodes,
                    consultation.id,
                ) ==> settled_down(
                    proven_by_implication(old(self).tree@.nodes, consultation.id),
                    final(self).tree@.nodes,
                )
            },
    {
        let id = consultation.id;
        let player = consultation.player;
        let mut out: Vec<Outbound> = Vec::new();
        if let Err(e) = self.tree.is_proven(id) {
            out.push(Outbound { to: Recipient::Player(player), msg: ServerMessage::Error(e) });
            assert(out@ =~= seq![reply(player, ServerMessage::Error(ProofError::NoSuchNode(id)))]);
            return out;
        }
        match self.ai.parse_ai_result(answer) {
            Ok(explanation) => {
                match consultation.kind {
                    ProofKind::Direct => self.tree.set_directly_proven(id),
                    ProofKind::Implication => self.tree.set_implied(id),
                }
                out.push(
                    Outbound {
                        to: Recipient::Player(player),
                        msg: ServerMessage::Comment { id, comment: explanation, success: true },
                    },
                );
                let ghost first = out@;
                self.announce(&mut out);
                assert(out@[0] == out@.subrange(0, 1)[0]);
                assert(out@[0] == first[0]);
            },
            Err(explanation) => {
                out.push(
                    Outbound {
                        to: Recipient::Player(player),
                        msg: ServerMessage::Comment { id, comment: explanation, success: false },
                    },
                );
            },
        }
        out
    }
}

} // verus!
