use argue::arena::NodeId;
use argue::graph::{ProofError, ProofState, TreeState};

fn state_of(t: &TreeState, id: NodeId) -> ProofState {
    let dto = t.as_dto();
    dto.statements.iter().find(|s| s.id == id).expect("live node").state
}

fn premise_pair() -> (TreeState, NodeId, NodeId, NodeId) {
    let mut t = TreeState::new("Socrates is mortal".to_string());
    let root = t.root();
    let a = t.add_node("All men are mortal".to_string());
    let b = t.add_node("Socrates is a man".to_string());
    t.link(root, a).unwrap();
    t.link(root, b).unwrap();
    (t, root, a, b)
}

#[test]
fn new_tree_holds_only_the_unproven_root() {
    let t = TreeState::new("topic".to_string());
    let dto = t.as_dto();
    assert_eq!(dto.statements.len(), 1);
    assert_eq!(dto.root, t.root());
    assert_eq!(dto.statements[0].statement, "topic");
    assert_eq!(dto.statements[0].state, ProofState::Unproven);
    assert!(dto.statements[0].parents.is_empty());
    assert!(dto.statements[0].children.is_empty());
    assert!(!t.proof_complete());
}

#[test]
fn added_nodes_get_distinct_handles() {
    let mut t = TreeState::new("topic".to_string());
    let a = t.add_node("a".to_string());
    let b = t.add_node("b".to_string());
    assert_ne!(a, b);
    assert_ne!(a, t.root());
    assert_eq!(t.get_statement(b), Ok("b"));
    assert_eq!(t.is_proven(a), Ok(false));
}

#[test]
fn removed_handle_is_not_reused() {
    let mut t = TreeState::new("topic".to_string());
    let a = t.add_node("a".to_string());
    t.remove_node(a).unwrap();
    let b = t.add_node("b".to_string());
    assert_ne!(a, b);
    assert_eq!(t.get_statement(a), Err(ProofError::NoSuchNode(a)));
    assert_eq!(t.removals(), 1);
}

#[test]
fn link_records_both_directions() {
    let (t, root, a, b) = premise_pair();
    let dto = t.as_dto();
    let r = dto.statements.iter().find(|s| s.id == root).unwrap();
    assert_eq!(r.children, vec![a, b]);
    let sa = dto.statements.iter().find(|s| s.id == a).unwrap();
    assert_eq!(sa.parents, vec![root]);
    assert_eq!(t.get_premises(root).unwrap(), vec!["All men are mortal", "Socrates is a man"]);
}

#[test]
fn link_rejects_existing_edge_and_leaves_graph() {
    let (mut t, root, a, _) = premise_pair();
    let before = t.as_dto();
    assert_eq!(t.link(root, a), Err(ProofError::AddExistingLink { child: a, parent: root }));
    let after = t.as_dto();
    assert_eq!(before.statements.len(), after.statements.len());
    for (x, y) in before.statements.iter().zip(after.statements.iter()) {
        assert_eq!(x.id, y.id);
        assert_eq!(x.children, y.children);
        assert_eq!(x.parents, y.parents);
        assert_eq!(x.state, y.state);
    }
}

#[test]
fn unlink_rejects_missing_edge() {
    let (mut t, _, a, b) = premise_pair();
    assert_eq!(t.unlink(a, b), Err(ProofError::RemoveNonExistentLink { child: b, parent: a }));
    assert_eq!(t.get_premises(a).unwrap().len(), 0);
}

#[test]
fn link_and_unlink_reject_missing_nodes() {
    let (mut t, root, a, _) = premise_pair();
    t.remove_node(a).unwrap();
    assert_eq!(t.link(a, root), Err(ProofError::NoSuchNode(a)));
    assert_eq!(t.link(root, a), Err(ProofError::NoSuchNode(a)));
    assert_eq!(t.unlink(root, a), Err(ProofError::NoSuchNode(a)));
    assert_eq!(t.change_node_statement(a, "x".to_string()), Err(ProofError::NoSuchNode(a)));
}

#[test]
fn root_cannot_be_removed() {
    let (mut t, root, a, _) = premise_pair();
    assert_eq!(t.remove_node(root), Err(ProofError::RemoveRoot));
    assert_eq!(t.get_premises(root).unwrap().len(), 2);
    assert_eq!(t.get_statement(root), Ok("Socrates is mortal"));
    assert_eq!(t.get_statement(a), Ok("All men are mortal"));
    assert_eq!(t.removals(), 0);
}

#[test]
fn implication_is_proven_once_all_premises_are() {
    let (mut t, root, a, b) = premise_pair();
    t.set_directly_proven(a);
    t.set_implied(root);
    assert_eq!(state_of(&t, root), ProofState::ImpliedUnproven);
    assert!(!t.proof_complete());
    t.set_directly_proven(b);
    assert_eq!(state_of(&t, root), ProofState::ImpliedProven);
    assert!(t.proof_complete());
}

#[test]
fn proven_premises_give_implied_proven_at_once() {
    let (mut t, root, a, b) = premise_pair();
    t.set_directly_proven(a);
    t.set_directly_proven(b);
    t.set_implied(root);
    assert_eq!(state_of(&t, root), ProofState::ImpliedProven);
}

#[test]
fn edit_resets_node_and_recomputes_parents() {
    let (mut t, root, a, b) = premise_pair();
    t.set_directly_proven(a);
    t.set_directly_proven(b);
    t.set_implied(root);
    t.change_node_statement(a, "Some men are mortal".to_string()).unwrap();
    assert_eq!(state_of(&t, a), ProofState::Unproven);
    assert_eq!(t.get_statement(a), Ok("Some men are mortal"));
    assert_eq!(state_of(&t, root), ProofState::ImpliedUnproven);
    assert_eq!(state_of(&t, b), ProofState::DirectlyProven);
}

#[test]
fn edit_of_unproven_node_keeps_parent_verdicts() {
    let (mut t, root, a, _) = premise_pair();
    t.set_implied(root);
    t.change_node_statement(a, "changed".to_string()).unwrap();
    assert_eq!(state_of(&t, root), ProofState::ImpliedUnproven);
}

#[test]
fn propagation_climbs_a_chain() {
    let mut t = TreeState::new("top".to_string());
    let top = t.root();
    let mid = t.add_node("mid".to_string());
    let low = t.add_node("low".to_string());
    t.link(top, mid).unwrap();
    t.link(mid, low).unwrap();
    t.set_implied(top);
    t.set_implied(mid);
    assert_eq!(state_of(&t, top), ProofState::ImpliedUnproven);
    t.set_directly_proven(low);
    assert_eq!(state_of(&t, mid), ProofState::ImpliedProven);
    assert_eq!(state_of(&t, top), ProofState::ImpliedProven);
    t.change_node_statement(low, "low, reworded".to_string()).unwrap();
    assert_eq!(state_of(&t, mid), ProofState::ImpliedUnproven);
    assert_eq!(state_of(&t, top), ProofState::ImpliedUnproven);
}

#[test]
fn new_unproven_premise_takes_proof_away() {
    let (mut t, root, a, b) = premise_pair();
    t.set_directly_proven(a);
    t.set_directly_proven(b);
    t.set_implied(root);
    let c = t.add_node("extra".to_string());
    t.link(root, c).unwrap();
    assert_eq!(state_of(&t, root), ProofState::ImpliedUnproven);
}

#[test]
fn unlink_makes_implied_parent_unproven() {
    let (mut t, root, a, b) = premise_pair();
    t.set_directly_proven(a);
    t.set_directly_proven(b);
    t.set_implied(root);
    t.unlink(root, b).unwrap();
    assert_eq!(state_of(&t, root), ProofState::Unproven);
    assert_eq!(t.get_premises(root).unwrap(), vec!["All men are mortal"]);
    assert!(!t.proof_complete());
}

#[test]
fn unlink_of_plain_parent_keeps_state() {
    let (mut t, root, a, _) = premise_pair();
    t.set_directly_proven(root);
    t.unlink(root, a).unwrap();
    assert_eq!(state_of(&t, root), ProofState::DirectlyProven);
}

#[test]
fn remove_severs_edges_and_lapses_parents() {
    let (mut t, root, a, b) = premise_pair();
    t.set_directly_proven(a);
    t.set_directly_proven(b);
    t.set_implied(root);
    t.remove_node(b).unwrap();
    assert_eq!(state_of(&t, root), ProofState::Unproven);
    assert_eq!(t.get_premises(root).unwrap(), vec!["All men are mortal"]);
    let dto = t.as_dto();
    assert_eq!(dto.statements.len(), 2);
    for s in dto.statements.iter() {
        assert!(!s.children.contains(&b));
        assert!(!s.parents.contains(&b));
    }
    assert_eq!(t.remove_node(b), Err(ProofError::NoSuchNode(b)));
}

#[test]
fn remove_of_premise_node_clears_child_parents() {
    let mut t = TreeState::new("top".to_string());
    let top = t.root();
    let mid = t.add_node("mid".to_string());
    let low = t.add_node("low".to_string());
    t.link(top, mid).unwrap();
    t.link(mid, low).unwrap();
    t.remove_node(mid).unwrap();
    let dto = t.as_dto();
    let l = dto.statements.iter().find(|s| s.id == low).unwrap();
    assert!(l.parents.is_empty());
    let r = dto.statements.iter().find(|s| s.id == top).unwrap();
    assert!(r.children.is_empty());
}

#[test]
fn self_link_is_allowed_and_repeatable() {
    let mut t = TreeState::new("top".to_string());
    let root = t.root();
    t.link(root, root).unwrap();
    t.link(root, root).unwrap();
    let dto = t.as_dto();
    assert_eq!(dto.statements[0].children, vec![root, root]);
    assert_eq!(dto.statements[0].parents, vec![root, root]);
    t.set_implied(root);
    assert_eq!(state_of(&t, root), ProofState::ImpliedUnproven);
    t.unlink(root, root).unwrap();
    assert!(t.as_dto().statements[0].children.is_empty());
    assert_eq!(t.unlink(root, root), Ok(()));
}

#[test]
fn cycle_of_implications_settles() {
    let mut t = TreeState::new("p".to_string());
    let p = t.root();
    let q = t.add_node("q".to_string());
    let base = t.add_node("base".to_string());
    t.link(p, q).unwrap();
    t.link(q, p).unwrap();
    t.link(q, base).unwrap();
    t.set_directly_proven(p);
    t.set_directly_proven(base);
    t.set_implied(q);
    assert_eq!(state_of(&t, q), ProofState::ImpliedProven);
    t.set_implied(p);
    assert_eq!(state_of(&t, p), ProofState::ImpliedProven);
    t.change_node_statement(base, "base, reworded".to_string()).unwrap();
    assert_eq!(state_of(&t, q), ProofState::ImpliedUnproven);
    assert_eq!(state_of(&t, p), ProofState::ImpliedUnproven);
}

#[test]
fn proof_state_predicates() {
    assert!(ProofState::DirectlyProven.is_proven());
    assert!(ProofState::ImpliedProven.is_proven());
    assert!(!ProofState::ImpliedUnproven.is_proven());
    assert!(!ProofState::Unproven.is_proven());
    assert!(ProofState::ImpliedUnproven.is_implied());
    assert!(ProofState::ImpliedProven.is_implied());
    assert!(!ProofState::DirectlyProven.is_implied());
    assert!(!ProofState::Unproven.is_implied());
}

#[test]
fn errors_read_in_words() {
    let a = NodeId { index: 3, generation: 12 };
    let b = NodeId { index: 0, generation: 0 };
    assert_eq!(ProofError::NoSuchNode(a).message(), "No node with index Index { index: 3, generation: 12 }.");
    assert_eq!(ProofError::RemoveRoot.message(), "Tried to remove the root node.");
    assert_eq!(
        ProofError::AddExistingLink { child: a, parent: b }.message(),
        "Tried to add an existing link from Index { index: 3, generation: 12 } to Index { index: 0, generation: 0 }."
    );
    assert_eq!(
        ProofError::RemoveNonExistentLink { child: b, parent: a }.message(),
        "Tried to remove a non-existent link from Index { index: 0, generation: 0 } to Index { index: 3, generation: 12 }."
    );
}

#[test]
fn every_implied_node_agrees_with_its_premises_after_each_step() {
    let mut t = TreeState::new("r".to_string());
    let r = t.root();
    let x = t.add_node("x".to_string());
    let y = t.add_node("y".to_string());
    let z = t.add_node("z".to_string());
    t.link(r, x).unwrap();
    t.link(x, y).unwrap();
    t.link(x, z).unwrap();
    t.link(r, z).unwrap();
    let check = |t: &TreeState| {
        let d = t.as_dto();
        for s in d.statements.iter() {
            if s.state.is_implied() {
                let all = s.children.iter().all(|c| {
                    d.statements.iter().find(|o| o.id == *c).unwrap().state.is_proven()
                });
                assert_eq!(s.state.is_proven(), all);
            }
            for c in s.children.iter() {
                let o = d.statements.iter().find(|o| o.id == *c).unwrap();
                assert!(o.parents.contains(&s.id));
            }
        }
    };
    t.set_implied(r);
    check(&t);
    t.set_implied(x);
    check(&t);
    t.set_directly_proven(y);
    check(&t);
    t.set_directly_proven(z);
    check(&t);
    assert!(t.proof_complete());
    t.unlink(x, y).unwrap();
    check(&t);
    assert!(!t.proof_complete());
    t.set_implied(x);
    check(&t);
    assert!(t.proof_complete());
    t.remove_node(z).unwrap();
    check(&t);
    assert!(!t.proof_complete());
}

#[test]
fn new_handles_carry_the_removal_count() {
    let mut t = TreeState::new("topic".to_string());
    let a = t.add_node("a".to_string());
    assert_eq!(a.generation, 0);
    t.remove_node(a).unwrap();
    let b = t.add_node("b".to_string());
    assert_eq!(b.generation, 1);
    assert_eq!(b.index, a.index);
    assert_ne!(a, b);
}

#[test]
fn decimal_digits_in_error_text() {
    let big = NodeId { index: 1_234_567, generation: u64::MAX };
    assert_eq!(
        ProofError::NoSuchNode(big).message(),
        "No node with index Index { index: 1234567, generation: 18446744073709551615 }."
    );
}
