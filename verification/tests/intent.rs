use binetic::address::RegisterAddress;
use binetic::bitslice::BitslicedLane;
use binetic::intent::{
    apply_flips, classify_lowered, compute_gap, detect_intent, hash_bitslice, matching_bits, target_state_from_op,
    GateOp, IntentError, IntentGraph, TrajectoryGraph, TrajectoryOutcome, UserAuthority,
};
use binetic::register::Register;

#[test]
fn test_detect_intent_sin() {
    let intent = detect_intent("add sin trig gates to the circuit").unwrap();
    assert_eq!(intent.target_op, Some(GateOp::Sin));
}

#[test]
fn test_detect_intent_xor() {
    let intent = detect_intent("use XOR logic for this operation").unwrap();
    assert_eq!(intent.target_op, Some(GateOp::XorGate));
}

#[test]
fn test_detect_intent_learn() {
    let intent = detect_intent("learn to be smarter").unwrap();
    // learning intents carry the highest priority, 3
    assert_eq!(intent.priority_level, 3);
}

#[test]
fn test_compute_gap() {
    let current = BitslicedLane::from_bits(&[true, false, true, false]);
    let target = BitslicedLane::from_bits(&[true, true, true, false]);
    let gap = compute_gap(&current, &target).unwrap();

    assert_eq!(gap.get_bit(0), false); // same
    assert_eq!(gap.get_bit(1), true); // different
    assert_eq!(gap.get_bit(2), false); // same
    assert_eq!(gap.get_bit(3), false); // same
}

#[test]
fn test_user_authority_approval_gate() {
    let authority = &mut UserAuthority::new(42);

    // Mutation with wrong intent hash should be rejected
    let wrong_delta = BitslicedLane::from_bits(&[true, false, true, false]);
    let addr = RegisterAddress::from(0u128);
    let approved = authority.approve(addr, &wrong_delta);
    assert!(!approved);

    // Mutation with matching intent hash should be approved
    let correct_delta = BitslicedLane::from_bits(&[true, false, true, false]);
    let authority2 = &mut UserAuthority::new(hash_bitslice(&correct_delta) as u64);
    let approved = authority2.approve(addr, &correct_delta);
    assert!(approved);
}

#[test]
fn test_user_authority_rollback() {
    let authority = &mut UserAuthority::new(123);

    // Save checkpoint
    let addr = RegisterAddress::from(0u128);
    let register = Register::new(addr, BitslicedLane::from_bits(&[true, false]));
    authority.checkpoint(addr, &register);

    // Rollback should return the saved state
    let restored = authority.rollback(addr);
    assert!(restored.is_some());
    assert_eq!(restored.unwrap().payload_bytes(), register.payload_bytes());
}

#[test]
fn test_user_authority_audit_trail() {
    let delta = BitslicedLane::from_bits(&[true, false, true, false]);
    let addr = RegisterAddress::from(0u128);

    // Authority created with matching intent hash
    let mut authority = UserAuthority::new(hash_bitslice(&delta) as u64);

    // Initially no records
    assert!(authority.audit_trail().is_empty());

    // Approve adds a record — delta matches intent hash, so approved
    authority.approve(addr, &delta);
    assert_eq!(authority.audit_trail().len(), 1);
    assert!(authority.audit_trail()[0].approved);

    // All approved check
    assert!(authority.verify_all_approved());

    // Wrong delta should be rejected
    let wrong_delta = BitslicedLane::from_bits(&[false, true, false, true]);
    authority.approve(addr, &wrong_delta);
    assert_eq!(authority.audit_trail().len(), 2);
    assert!(!authority.audit_trail()[1].approved);

    // Not all approved anymore
    assert!(!authority.verify_all_approved());
}

#[test]
fn test_trajectory_graph() {
    let mut traj = TrajectoryGraph::new();

    let addr = RegisterAddress::from(0u128);
    let n1 = traj.add_node("read".to_string(), addr, 42);
    let n2 = traj.add_node("inject".to_string(), addr, 43);

    assert_eq!(n1, 0);
    assert_eq!(n2, 1);
    assert_eq!(traj.nodes().len(), 2);
    assert_eq!(traj.edges().len(), 1);

    traj.set_outcome(n1, TrajectoryOutcome::Success);
    traj.set_outcome(n2, TrajectoryOutcome::Success);
    let (successes, completed) = traj.outcome_counts();
    assert_eq!(successes as f64 / completed as f64, 1.0);
}

#[test]
fn hash_bitslice_exact_value() {
    // one word: 0 * 31 + word
    let lane = BitslicedLane::from_bits(&[true, false, true]);
    assert_eq!(hash_bitslice(&lane), 0b101);
    // two words: (w0 * 31 + w1), wrapping
    let mut bits = vec![false; 128];
    bits[0] = true;
    bits[64] = true;
    bits[65] = true;
    let lane = BitslicedLane::from_bits(&bits);
    assert_eq!(hash_bitslice(&lane), 31 + 3);
    let empty = BitslicedLane::from_bits(&[]);
    assert_eq!(hash_bitslice(&empty), 0);
}

#[test]
fn authority_rollback_gives_latest_checkpoint_for_address() {
    let mut authority = UserAuthority::new(0);
    let a = RegisterAddress::from(1u128);
    let b = RegisterAddress::from(2u128);
    assert!(authority.rollback(a).is_none());
    authority.checkpoint(a, &Register::new(a, BitslicedLane::from_bits(&[true])));
    authority.checkpoint(b, &Register::new(b, BitslicedLane::from_bits(&[false, false])));
    authority.checkpoint(a, &Register::new(a, BitslicedLane::from_bits(&[false, true, true])));
    assert_eq!(authority.rollback(a).unwrap().payload.len(), 3);
    assert_eq!(authority.rollback(b).unwrap().payload.len(), 2);
    assert!(authority.rollback(RegisterAddress::from(3u128)).is_none());
    assert!(authority.verify_all_approved()); // an empty trail is all approved
}

#[test]
fn authority_records_intent_hash_in_trail() {
    let mut authority = UserAuthority::new(77);
    let delta = BitslicedLane::from_bits(&[true]);
    assert!(!authority.verify_intent(&delta));
    authority.approve(RegisterAddress::from(5u128), &delta);
    let rec = &authority.audit_trail()[0];
    assert_eq!(rec.intent_hash, 77);
    assert_eq!(rec.address, RegisterAddress::from(5u128));
    assert_eq!(rec.delta.to_bits(), vec![true]);
}

#[test]
fn detect_intent_rules_and_failure() {
    assert_eq!(detect_intent("COS only").unwrap().target_op, Some(GateOp::Cos));
    // "cosine" holds "sin", and the sine rule comes first
    assert_eq!(detect_intent("cosine").unwrap().target_op, Some(GateOp::Sin));
    assert_eq!(detect_intent("and then").unwrap().target_op, Some(GateOp::AndGate));
    assert!(detect_intent("random and").is_err());
    assert_eq!(detect_intent("invert it").unwrap().target_op, Some(GateOp::NotGate));
    assert_eq!(detect_intent("same again").unwrap().target_op, Some(GateOp::Hadamard));
    let fix = detect_intent("please fix").unwrap();
    assert_eq!(fix.target_op, None);
    assert_eq!(fix.priority_level, 2);
    assert_eq!(fix.description, "please fix");
    // "world" holds "or"
    assert_eq!(detect_intent("hello world").unwrap().target_op, Some(GateOp::OrGate));
    match detect_intent("hi there") {
        Err(IntentError::NoIntentDetected(m)) => assert_eq!(m, "No recognizable intent in message"),
        other => panic!("unexpected {:?}", other),
    }
}

#[test]
fn classify_lowered_priority_prefers_learning() {
    let chars: Vec<char> = "fix and evolve".chars().collect();
    let (op, level) = classify_lowered(&chars);
    assert_eq!(op, Some(GateOp::AndGate));
    assert_eq!(level, 3);
}

#[test]
fn compute_gap_size_mismatch() {
    let a = BitslicedLane::from_bits(&[true, false]);
    let b = BitslicedLane::from_bits(&[true]);
    match compute_gap(&a, &b) {
        Err(IntentError::GapComputationFailed(m)) => assert_eq!(m, "Size mismatch: current=2 target=1"),
        other => panic!("unexpected {:?}", other),
    }
}

#[test]
fn target_states_by_op() {
    let sin = target_state_from_op(Some(GateOp::Sin));
    assert_eq!(sin.len(), 256);
    assert_eq!(sin.popcount(), 128);
    assert!(sin.get_bit(0) && !sin.get_bit(1));
    let and = target_state_from_op(Some(GateOp::AndGate));
    assert_eq!(and.popcount(), 64);
    let or = target_state_from_op(Some(GateOp::OrGate));
    assert!(or.get_bit(3) && !or.get_bit(5));
    assert_eq!(target_state_from_op(None).popcount(), 0);
}

#[test]
fn apply_flips_flips_marked_bits() {
    let state = BitslicedLane::from_bits(&[true, false, true]);
    let r = apply_flips(&state, &[true, true, false, true]);
    assert_eq!(r.to_bits(), vec![false, true, true]);
}

#[test]
fn test_intent_graph_drift() {
    let mut intent_graph = IntentGraph::new();

    let i1 = intent_graph.add_intent(100, "add sin".to_string(), 1.0f64.to_bits());
    let i2 = intent_graph.add_intent(100, "add sin".to_string(), 1.0f64.to_bits());
    let i3 = intent_graph.add_intent(200, "add cos".to_string(), 1.0f64.to_bits());

    intent_graph.confirm(i1);
    intent_graph.confirm(i2);
    intent_graph.confirm(i3);

    // First two intents are same, third is different
    let total = intent_graph.drift_total().unwrap();
    let drift = total as f64 / (intent_graph.nodes().len() - 1) as f64;
    assert!(drift > 0.0);

    // Latest confirmed should be the third
    let latest = intent_graph.latest_confirmed().unwrap();
    assert_eq!(latest.intent_hash, 200);
}

#[test]
fn intent_graph_links_and_confirms() {
    let mut g = IntentGraph::new();
    assert!(g.latest_confirmed().is_none());
    assert_eq!(g.drift_total(), Some(0));
    let a = g.add_intent(100, "a".to_string(), 0);
    let b = g.add_intent(200, "b".to_string(), 7);
    let c = g.add_intent(200, "c".to_string(), 0);
    assert_eq!((a, b, c), (0, 1, 2));
    assert_eq!(g.edges().to_vec(), vec![(0, 1), (1, 2)]);
    assert!(g.latest_confirmed().is_none());
    g.confirm(b);
    g.confirm(99);
    assert_eq!(g.latest_confirmed().unwrap().description, "b");
    assert_eq!(g.latest_confirmed().unwrap().priority_bits, 7);
    g.confirm(a);
    assert_eq!(g.latest_confirmed().unwrap().intent_hash, 200);
    // 100 ^ 200 = 172, 200 ^ 200 = 0
    assert_eq!(g.drift_total(), Some(172));
}

#[test]
fn intent_graph_drift_overflow_is_none() {
    let mut g = IntentGraph::new();
    g.add_intent(0, "x".to_string(), 0);
    g.add_intent(u64::MAX, "y".to_string(), 0);
    assert_eq!(g.drift_total(), Some(u64::MAX));
    g.add_intent(0, "z".to_string(), 0);
    assert_eq!(g.drift_total(), None);
}

#[test]
fn matching_bits_is_bit_length_of_xor() {
    assert_eq!(matching_bits(42, 42), 0);
    assert_eq!(matching_bits(0, 1), 1);
    assert_eq!(matching_bits(42, 999), 10);
    assert_eq!(matching_bits(0, u64::MAX), 64);
}

#[test]
fn intent_graph_confirming_keeps_drift_and_last_becomes_latest() {
    let mut g = IntentGraph::new();
    g.add_intent(5, "a".to_string(), 0);
    g.add_intent(9, "b".to_string(), 0);
    let before = g.drift_total();
    g.confirm(0);
    assert_eq!(g.drift_total(), before);
    let last = g.add_intent(1, "c".to_string(), 0);
    g.confirm(last);
    assert_eq!(g.latest_confirmed().unwrap().description, "c");
    assert_eq!(g.drift_total(), Some((5 ^ 9) + (9 ^ 1)));
}
