use argue::arena::NodeId;
use argue::graph::{ProofError, ProofState};
use argue::messages::{ClientMessage, ServerMessage};
use argue::session::{Consultation, GameState, Outbound, ProofKind, Recipient, Step};

fn done(step: Step) -> Vec<Outbound> {
    match step {
        Step::Done(out) => out,
        Step::Consult(..) => panic!("expected no consultation"),
    }
}

fn consult(step: Step) -> (Consultation, Vec<Outbound>) {
    match step {
        Step::Consult(c, out) => (c, out),
        Step::Done(_) => panic!("expected a consultation"),
    }
}

fn has_win(out: &[Outbound]) -> bool {
    out.iter().any(|o| matches!(o.msg, ServerMessage::Win))
}

fn add(game: &mut GameState, text: &str, player: u64) -> NodeId {
    let out = done(game.on_incoming_message(ClientMessage::Add { statement: text.to_string() }, player, 0));
    assert_eq!(out[0].to, Recipient::Player(player));
    match out[0].msg {
        ServerMessage::NewNodeId(id) => id,
        _ => panic!("expected a new id"),
    }
}

fn state(game: &GameState, id: NodeId) -> ProofState {
    game.tree.as_dto().statements.iter().find(|s| s.id == id).unwrap().state
}

fn socrates() -> (GameState, NodeId, NodeId, NodeId) {
    let mut game = GameState::new("Socrates is mortal".to_string(), 15);
    let root = game.tree.root();
    let a = add(&mut game, "All men are mortal", 1);
    let b = add(&mut game, "Socrates is a man", 1);
    done(game.on_incoming_message(ClientMessage::Link { premise: a, conclusion: root }, 1, 0));
    done(game.on_incoming_message(ClientMessage::Link { premise: b, conclusion: root }, 1, 0));
    (game, root, a, b)
}

fn prove_directly(game: &mut GameState, id: NodeId, now: u64) -> Vec<Outbound> {
    let (c, _) = consult(game.on_incoming_message(ClientMessage::ProveDirect { id }, 1, now));
    assert_eq!(c.kind, ProofKind::Direct);
    game.on_verdict(c, Ok("[TRUE] yes".to_string()))
}

#[test]
fn socrates_is_proven_and_wins() {
    let (mut game, root, a, b) = socrates();
    let out = prove_directly(&mut game, a, 0);
    assert!(matches!(&out[0].msg, ServerMessage::Comment { success: true, .. }));
    assert!(!has_win(&out));
    prove_directly(&mut game, b, 15_000);
    let (c, notice) = consult(game.on_incoming_message(ClientMessage::ProveImplication { id: root }, 1, 30_000));
    assert!(matches!(notice[0].msg, ServerMessage::AICooldown { seconds: 15 }));
    assert_eq!(c.kind, ProofKind::Implication);
    assert_eq!(
        c.request.user_message,
        "Premises:\n* All men are mortal\n* Socrates is a man\nConclusion:\n* Socrates is mortal"
    );
    let out = game.on_verdict(c, Ok("[TRUE] classic syllogism".to_string()));
    assert_eq!(state(&game, root), ProofState::ImpliedProven);
    assert!(game.tree.proof_complete());
    assert!(matches!(out[1].msg, ServerMessage::GameState(_)));
    assert!(has_win(&out));
}

#[test]
fn unlinking_a_premise_of_the_proven_root_reverts_it() {
    let (mut game, root, a, b) = socrates();
    prove_directly(&mut game, a, 0);
    prove_directly(&mut game, b, 15_000);
    let (c, _) = consult(game.on_incoming_message(ClientMessage::ProveImplication { id: root }, 1, 30_000));
    game.on_verdict(c, Ok("[TRUE] fine".to_string()));
    assert!(game.tree.proof_complete());
    let out = done(game.on_incoming_message(ClientMessage::Unlink { premise: b, conclusion: root }, 1, 31_000));
    assert_eq!(state(&game, root), ProofState::Unproven);
    assert_eq!(out.len(), 1);
    assert_eq!(out[0].to, Recipient::All);
    assert!(matches!(out[0].msg, ServerMessage::GameState(_)));
    assert!(!has_win(&out));
}

#[test]
fn second_direct_proof_within_cooldown_is_refused() {
    let (mut game, _, a, b) = socrates();
    let (c, _) = consult(game.on_incoming_message(ClientMessage::ProveDirect { id: a }, 1, 1_000));
    let out = done(game.on_incoming_message(ClientMessage::ProveDirect { id: b }, 2, 2_000));
    assert_eq!(out.len(), 1);
    assert_eq!(out[0].to, Recipient::Player(2));
    assert_eq!(game.ai.cooldown_until, 16_000);
    match &out[0].msg {
        ServerMessage::Comment { id, comment, success } => {
            assert_eq!(*id, b);
            assert_eq!(comment, "AI is on cooldown for the next 14 second(s).");
            assert!(!success);
        }
        _ => panic!("expected a comment"),
    }
    game.on_verdict(c, Ok("[TRUE] yes".to_string()));
    assert_eq!(state(&game, a), ProofState::DirectlyProven);
    assert_eq!(state(&game, b), ProofState::Unproven);
}

#[test]
fn rejected_verdict_goes_to_requester_only() {
    let (mut game, _, a, _) = socrates();
    let (c, out) = consult(game.on_incoming_message(ClientMessage::ProveDirect { id: a }, 7, 0));
    assert_eq!(out.len(), 2);
    assert_eq!(out[0].to, Recipient::All);
    assert!(matches!(out[0].msg, ServerMessage::AICooldown { seconds: 15 }));
    assert_eq!(out[1].to, Recipient::All);
    assert!(matches!(&out[1].msg, ServerMessage::Comment { success: true, .. }));
    assert_eq!(c.player, 7);
    let out = game.on_verdict(c, Ok("[FALSE] not at all".to_string()));
    assert_eq!(out.len(), 1);
    assert_eq!(out[0].to, Recipient::Player(7));
    match &out[0].msg {
        ServerMessage::Comment { comment, success, .. } => {
            assert_eq!(comment, "[FALSE] not at all");
            assert!(!success);
        }
        _ => panic!("expected a comment"),
    }
    assert_eq!(state(&game, a), ProofState::Unproven);
}

#[test]
fn transport_failure_is_a_rejection() {
    let (mut game, _, a, _) = socrates();
    let (c, _) = consult(game.on_incoming_message(ClientMessage::ProveDirect { id: a }, 1, 0));
    let out = game.on_verdict(c, Err("connection refused".to_string()));
    match &out[0].msg {
        ServerMessage::Comment { comment, success, .. } => {
            assert!(comment.ends_with("connection refused"));
            assert!(!success);
        }
        _ => panic!("expected a comment"),
    }
}

#[test]
fn implication_without_premises_is_refused() {
    let mut game = GameState::new("lonely".to_string(), 15);
    let root = game.tree.root();
    let out = done(game.on_incoming_message(ClientMessage::ProveImplication { id: root }, 3, 0));
    assert_eq!(out.len(), 1);
    assert_eq!(out[0].to, Recipient::Player(3));
    match &out[0].msg {
        ServerMessage::Comment { comment, success, .. } => {
            assert_eq!(comment, "You need to add at least one premise to prove an implication.");
            assert!(!success);
        }
        _ => panic!("expected a comment"),
    }
    assert_eq!(game.ai.cooldown_until, 0);
}

#[test]
fn command_errors_go_to_requester_only() {
    let (mut game, root, a, _) = socrates();
    let out = done(game.on_incoming_message(ClientMessage::Delete { id: root }, 4, 0));
    assert_eq!(out.len(), 1);
    assert_eq!(out[0].to, Recipient::Player(4));
    assert!(matches!(out[0].msg, ServerMessage::Error(ProofError::RemoveRoot)));
    let out = done(game.on_incoming_message(ClientMessage::Link { premise: a, conclusion: root }, 4, 0));
    assert!(matches!(out[0].msg, ServerMessage::Error(ProofError::AddExistingLink { .. })));
    let out = done(game.on_incoming_message(ClientMessage::Unlink { premise: root, conclusion: a }, 4, 0));
    assert!(matches!(out[0].msg, ServerMessage::Error(ProofError::RemoveNonExistentLink { .. })));
    done(game.on_incoming_message(ClientMessage::Delete { id: a }, 4, 0));
    let out = done(game.on_incoming_message(ClientMessage::Edit { id: a, statement: "x".to_string() }, 4, 0));
    assert!(matches!(out[0].msg, ServerMessage::Error(ProofError::NoSuchNode(_))));
    let out = done(game.on_incoming_message(ClientMessage::ProveDirect { id: a }, 4, 0));
    assert_eq!(out.len(), 1);
    assert_eq!(out[0].to, Recipient::Player(4));
    assert!(matches!(out[0].msg, ServerMessage::Error(ProofError::NoSuchNode(_))));
    let out = done(game.on_incoming_message(ClientMessage::ProveImplication { id: a }, 4, 0));
    assert_eq!(out.len(), 1);
    assert_eq!(out[0].to, Recipient::Player(4));
    assert!(matches!(out[0].msg, ServerMessage::Error(ProofError::NoSuchNode(_))));
    assert_eq!(game.ai.cooldown_until, 0);
}

#[test]
fn get_state_replies_with_snapshot() {
    let (mut game, root, _, _) = socrates();
    let out = done(game.on_incoming_message(ClientMessage::GetGameState, 9, 0));
    assert_eq!(out.len(), 1);
    assert_eq!(out[0].to, Recipient::Player(9));
    match &out[0].msg {
        ServerMessage::GameState(d) => {
            assert_eq!(d.root, root);
            assert_eq!(d.statements.len(), 3);
        }
        _ => panic!("expected the game state"),
    }
}

#[test]
fn add_replies_with_id_and_broadcasts_snapshot() {
    let mut game = GameState::new("t".to_string(), 1);
    let out = done(game.on_incoming_message(ClientMessage::Add { statement: "s".to_string() }, 5, 0));
    assert_eq!(out.len(), 2);
    assert!(matches!(out[0].msg, ServerMessage::NewNodeId(_)));
    assert_eq!(out[1].to, Recipient::All);
    assert!(matches!(out[1].msg, ServerMessage::GameState(_)));
}

#[test]
fn edit_through_session_resets_verdict() {
    let (mut game, _, a, _) = socrates();
    prove_directly(&mut game, a, 0);
    done(game.on_incoming_message(ClientMessage::Edit { id: a, statement: "Most men are mortal".to_string() }, 1, 0));
    assert_eq!(state(&game, a), ProofState::Unproven);
}

#[test]
fn verdict_for_deleted_node_is_an_error() {
    let (mut game, _, a, _) = socrates();
    let (c, _) = consult(game.on_incoming_message(ClientMessage::ProveDirect { id: a }, 1, 0));
    done(game.on_incoming_message(ClientMessage::Delete { id: a }, 1, 0));
    let out = game.on_verdict(c, Ok("[TRUE] yes".to_string()));
    assert!(matches!(out[0].msg, ServerMessage::Error(ProofError::NoSuchNode(_))));
}
