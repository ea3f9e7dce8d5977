use binetic::address::RegisterAddress;
use binetic::bitslice::BitslicedLane;
use binetic::bloom::{BloomRegistry, SectorKey};
use binetic::echo::{EchoPolicy, EchoPropagator, EchoPurpose, StructuredEcho};
use binetic::register::Register;
use binetic::store::RegisterStore;

#[test]
fn test_echo_policy_default() {
    let policy = EchoPolicy::default();
    assert!(policy.minimal);
    assert!(policy.bloom_gated);
    assert!(policy.rotation_damped);
    assert!(policy.xor_cancel);
    assert_eq!(policy.max_depth, 0); // unlimited
}

#[test]
fn test_echo_queue() {
    let policy = EchoPolicy::default();
    let bloom_registry = BloomRegistry::new();
    let mut propagator = EchoPropagator::new(policy, bloom_registry);

    let delta = BitslicedLane::from_bits(&[true, false, true, false]);
    let addr = RegisterAddress::new(0, 1, 2, 3, 4, 0);

    assert!(propagator.queue_echo(delta.clone(), addr, 1).is_ok());
    assert_eq!(propagator.pending_count(), 1);

    // Queue too many
    for i in 0..1024 {
        let d = BitslicedLane::from_bits(&[true]);
        let a = RegisterAddress::new(0, 1, 2, 3, (i % 10) as u16, 0);
        let _ = propagator.queue_echo(d, a, 1);
    }
    assert!(propagator.pending_count() >= 1024);
}

#[test]
fn test_echo_propagation_basic() {
    let policy = EchoPolicy::default();
    let bloom_registry = BloomRegistry::new();
    let mut propagator = EchoPropagator::new(policy, bloom_registry);

    // A simple register store
    let mut registers = RegisterStore::new();

    let addr_a = RegisterAddress::new(0, 1, 2, 3, 0, 0);
    let addr_b = RegisterAddress::new(0, 1, 2, 3, 1, 0); // dependent of A

    let payload_a = BitslicedLane::from_bits(&[true, false, true, false]);
    let payload_b = BitslicedLane::from_bits(&[false, true, false, true]);

    registers.insert(addr_a, Register::new(addr_a, payload_a));
    registers.insert(addr_b, Register::new(addr_b, payload_b));

    // Queue an echo from A
    let delta = BitslicedLane::from_bits(&[true, false, false, false]);
    propagator.queue_echo(delta, addr_a, 1).unwrap();

    // Propagate: B depends on A
    let stats = propagator.propagate(&mut registers, |addr| {
        if addr == addr_a {
            vec![addr_b]
        } else {
            vec![]
        }
    });

    assert_eq!(stats.propagated, 1);
    assert!(stats.canceled == 0);

    // Check that B was updated
    let reg_b = registers.get(addr_b).unwrap();
    // B's original payload was [false, true, false, true]
    // Delta was [true, false, false, false]
    // After XOR: [true, true, false, true]
    assert_eq!(reg_b.payload.get_bit(0), true);
    assert_eq!(reg_b.payload.get_bit(1), true);
    assert_eq!(reg_b.payload.get_bit(2), false);
    assert_eq!(reg_b.payload.get_bit(3), true);
}

#[test]
fn echo_queue_full_counts_drop() {
    let mut policy = EchoPolicy::default();
    policy.max_queue_size = 1;
    let mut propagator = EchoPropagator::new(policy, BloomRegistry::new());
    let addr = RegisterAddress::new(0, 1, 2, 3, 4, 0);
    assert!(propagator.queue_echo(BitslicedLane::from_bits(&[true]), addr, 1).is_ok());
    let err = propagator.queue_echo(BitslicedLane::from_bits(&[true]), addr, 1).unwrap_err();
    assert_eq!(err, "Echo queue full");
    assert_eq!(propagator.pending_count(), 1);
    assert_eq!(propagator.stats().dropped, 1);
    propagator.clear();
    assert_eq!(propagator.pending_count(), 0);
    propagator.reset_stats();
    assert_eq!(propagator.stats().dropped, 0);
}

#[test]
fn echo_xor_cancel_leaves_dependent_alone() {
    let mut propagator = EchoPropagator::new(EchoPolicy::default(), BloomRegistry::new());
    let mut registers = RegisterStore::new();
    let addr_a = RegisterAddress::new(0, 1, 2, 3, 0, 0);
    let addr_b = RegisterAddress::new(0, 1, 2, 3, 1, 0);
    registers.insert(addr_b, Register::new(addr_b, BitslicedLane::from_bits(&[true, false])));
    // delta equal to B's payload: XOR leaves nothing set, so it is cancelled
    propagator.queue_echo(BitslicedLane::from_bits(&[true, false]), addr_a, 1).unwrap();
    let stats = propagator.propagate(&mut registers, |_| vec![addr_b]);
    assert_eq!(stats.canceled, 1);
    assert_eq!(stats.propagated, 0);
    assert_eq!(registers.get(addr_b).unwrap().payload.to_bits(), vec![true, false]);
    assert_eq!(propagator.pending_count(), 0);
}

#[test]
fn echo_bloom_gate_skips_ruled_out_sector() {
    let mut registry = BloomRegistry::new();
    let addr_a = RegisterAddress::new(0, 1, 2, 3, 0, 0);
    let addr_b = RegisterAddress::new(0, 1, 2, 3, 1, 0);
    // B's sector has a filter that does not hold A
    registry.insert_into_sector(SectorKey::new(0, 1, 2, 3), 0x7777);
    let mut propagator = EchoPropagator::new(EchoPolicy::default(), registry);
    let mut registers = RegisterStore::new();
    registers.insert(addr_b, Register::new(addr_b, BitslicedLane::from_bits(&[false, true])));
    propagator.queue_echo(BitslicedLane::from_bits(&[true, false]), addr_a, 1).unwrap();
    let stats = propagator.propagate(&mut registers, |_| vec![addr_b]);
    if !propagator.bloom_registry().sector_might_contain(SectorKey::new(0, 1, 2, 3), addr_a.bits()) {
        assert_eq!(stats.bloom_gated, 1);
        assert_eq!(registers.get(addr_b).unwrap().payload.to_bits(), vec![false, true]);
    }
}

#[test]
fn echo_rotation_damping_requeues_cold_layer() {
    let mut propagator = EchoPropagator::new(EchoPolicy::default(), BloomRegistry::new());
    let mut registers = RegisterStore::new();
    let addr_a = RegisterAddress::new(0, 1, 2, 3, 0, 0);
    let addr_b = RegisterAddress::new(0, 1, 2, 3, 1, 0);
    registers.insert(addr_b, Register::new(addr_b, BitslicedLane::from_bits(&[false, true])));
    propagator.queue_echo(BitslicedLane::from_bits(&[true, false]), addr_a, 13).unwrap();
    let stats = propagator.propagate(&mut registers, |_| vec![addr_b]);
    assert_eq!(stats.rotation_damped, 1);
    assert_eq!(propagator.pending_count(), 1);
    assert_eq!(registers.get(addr_b).unwrap().payload.to_bits(), vec![false, true]);
}

#[test]
fn echo_structured_injection_queues() {
    let mut propagator = EchoPropagator::new(EchoPolicy::default(), BloomRegistry::new());
    let echo = StructuredEcho {
        source_address: RegisterAddress::new(0, 1, 2, 3, 0, 0),
        delta: BitslicedLane::from_bits(&[true]),
        target_layer: 1,
        max_depth: 2,
        purpose: EchoPurpose::RecordUpdate,
    };
    assert!(propagator.inject_structured(echo).is_ok());
    assert_eq!(propagator.pending_count(), 1);
}

#[test]
fn inject_structured_matches_queue_echo() {
    let mut policy = EchoPolicy::default();
    policy.max_queue_size = 1;
    let mut p = EchoPropagator::new(policy, BloomRegistry::new());
    let mut q = EchoPropagator::new(policy, BloomRegistry::new());
    let src = RegisterAddress::new(0, 2, 0, 0, 1, 0);
    for _ in 0..2 {
        let e = StructuredEcho {
            source_address: src,
            delta: BitslicedLane::from_bits(&[true, false]),
            target_layer: 3,
            max_depth: 9,
            purpose: EchoPurpose::WeightUpdate,
        };
        let a = p.inject_structured(e);
        let b = q.queue_echo(BitslicedLane::from_bits(&[true, false]), src, 3);
        assert_eq!(a, b);
        assert_eq!(p.pending_count(), q.pending_count());
        assert_eq!(p.stats().dropped, q.stats().dropped);
    }
    assert_eq!(p.pending_count(), 1);
    assert_eq!(p.stats().dropped, 1);
}
