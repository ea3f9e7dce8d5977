use binetic::address::ranges;
use binetic::address::RegisterAddress;
use binetic::backend::{ArithmeticOp, BackendId, ComputeOp, ComputeResult, QuantizationLevel, RoutingPolicy};
use binetic::bitslice::BitslicedLane;
use binetic::echo::EchoPurpose;
use binetic::fabric::{Fabric, FabricConfig};
use binetic::register::{Record, Register};
use binetic::rotation::RotationResult;

#[test]
fn test_fabric_creation() {
    let fabric = Fabric::new(FabricConfig::default()).expect("Failed to create fabric");
    assert_eq!(fabric.register_count(), 0);
    assert_eq!(fabric.stats().total_reads, 0);
}

#[test]
fn test_fabric_write_read() {
    let mut fabric = Fabric::new(FabricConfig::default()).expect("Failed to create fabric");
    fabric.initialize().expect("Failed to initialize");

    let addr = RegisterAddress::new(0, 1, 2, 3, 4, 0);
    let payload = BitslicedLane::from_bits(&[true, false, true, false, true, false, true, false]);
    let reg = Register::new(addr, payload);

    fabric.write(addr, reg.clone()).expect("Failed to write");
    let read_reg = fabric.read(addr).expect("Failed to read");

    assert_eq!(read_reg.payload.len(), 8);
    assert_eq!(read_reg.payload.get_bit(0), true);
    assert_eq!(read_reg.payload.get_bit(1), false);
}

#[test]
fn test_fabric_temporal() {
    let mut fabric = Fabric::new(FabricConfig::default()).expect("Failed to create fabric");

    let addr = RegisterAddress::new(0xF000, 0, 0, 0, 0, 0);
    let payload = BitslicedLane::from_bits(&[true; 64]);
    let reg = Register::new(addr, payload);

    fabric.write_temporal(0, reg.clone());
    let read = fabric.read_temporal(0).expect("Failed to read temporal");
    assert_eq!(read.payload.len(), 64);
    assert!(read.payload.all_set());
}

fn native(operation: ArithmeticOp, operands: Vec<RegisterAddress>, result_address: RegisterAddress) -> ComputeOp {
    ComputeOp {
        operation,
        operands,
        result_address,
        backend: Some(BackendId::NATIVE()),
        routing: RoutingPolicy::ToData,
    }
}

#[test]
fn test_fabric_compute_add() {
    let mut fabric = Fabric::new(FabricConfig::default()).expect("Failed to create fabric");
    fabric.initialize().expect("Failed to initialize");

    let addr_a = ranges::weight_address(1, 0, 0);
    let addr_b = ranges::weight_address(2, 0, 0);
    let addr_result = ranges::weight_address(3, 0, 0);

    let payload_a = BitslicedLane::from_bits(&[true, false, true, false]);
    let payload_b = BitslicedLane::from_bits(&[false, true, false, true]);

    fabric.write(addr_a, Register::new(addr_a, payload_a)).unwrap();
    fabric.write(addr_b, Register::new(addr_b, payload_b)).unwrap();

    let result = fabric.compute(native(ArithmeticOp::Add, vec![addr_a, addr_b], addr_result));

    assert!(result.success);

    let result_reg = fabric.read(addr_result).expect("Failed to read result");
    assert!(result_reg.payload.all_set());
}

#[test]
fn test_fabric_adapt() {
    let mut fabric = Fabric::new(FabricConfig::default()).expect("Failed to create fabric");
    fabric.initialize().expect("Failed to initialize");

    let addr = ranges::weight_address(1, 0, 0);
    let payload = BitslicedLane::from_bits(&[true, false, true, false]);
    fabric.write(addr, Register::new(addr, payload)).unwrap();

    let delta = BitslicedLane::from_bits(&[false, true, false, false]);
    fabric.inject_adapt(addr, delta, EchoPurpose::WeightUpdate).unwrap();

    let updated = fabric.read(addr).unwrap();
    assert_eq!(updated.payload.get_bit(0), true);
    assert_eq!(updated.payload.get_bit(1), true);
    assert_eq!(updated.payload.get_bit(2), true);
    assert_eq!(updated.payload.get_bit(3), false);
}

#[test]
fn test_xor_delta_model_sharing_with_adaptation() {
    let mut fabric = Fabric::new(FabricConfig::default()).expect("Failed to create fabric");
    fabric.initialize().expect("Failed to initialize");

    // Step 1: Attach base model
    let base_model = fabric.attach_model("base-v1", "", QuantizationLevel::Q4_0, false, None).unwrap();

    // Step 2: Write base model weights into the fabric
    let base_addr = base_model.base_address;
    let base_payload = BitslicedLane::from_bits(&[true, false, true, false]);
    fabric.write(base_addr, Register::new(base_addr, base_payload)).unwrap();

    // Step 3: Attach delta model from base
    let delta_model = fabric.attach_delta_model("delta-v1", "base-v1").unwrap();
    assert!(delta_model.is_delta);
    assert_eq!(delta_model.base_model_name.as_deref(), Some("base-v1"));

    // Step 4: Write delta register at offset address (XOR diff from base)
    let base_bits = base_model.base_address.bits();
    let delta_bits = base_bits + delta_model.weight_count as u128;
    let delta_addr = RegisterAddress::from(delta_bits);
    let delta_payload = BitslicedLane::from_bits(&[false, true, false, false]);
    fabric.write(delta_addr, Register::new(delta_addr, delta_payload)).unwrap();

    // Step 5: Read via delta model — should resolve base ^ delta
    let resolved = fabric.read(base_addr).unwrap();
    assert_eq!(resolved.payload.get_bit(0), true);
    assert_eq!(resolved.payload.get_bit(1), true);
    assert_eq!(resolved.payload.get_bit(2), true);
    assert_eq!(resolved.payload.get_bit(3), false);

    // Step 6: Inject adaptation delta into the delta model
    let adapt_delta = BitslicedLane::from_bits(&[false, false, true, false]);
    fabric.inject_adapt(base_addr, adapt_delta, EchoPurpose::WeightUpdate).unwrap();

    // Step 7: Read after adaptation — effective = base ^ delta ^ adapt_delta
    let adapted = fabric.read(base_addr).unwrap();
    assert_eq!(adapted.payload.get_bit(0), true);
    assert_eq!(adapted.payload.get_bit(1), true);
    assert_eq!(adapted.payload.get_bit(2), false);
    assert_eq!(adapted.payload.get_bit(3), false);

    // Stats verify
    let stats = fabric.stats();
    assert_eq!(stats.adaptation_deltas_injected, 1);
}

#[test]
fn test_fabric_stats() {
    let mut fabric = Fabric::new(FabricConfig::default()).expect("Failed to create fabric");
    fabric.initialize().expect("Failed to initialize");

    let addr = RegisterAddress::new(0, 1, 2, 3, 4, 0);
    let payload = BitslicedLane::from_bits(&[true]);
    fabric.write(addr, Register::new(addr, payload)).unwrap();
    fabric.read(addr);
    fabric.compute(native(ArithmeticOp::Add, vec![addr, addr], addr));

    let stats = fabric.stats();
    assert_eq!(stats.total_reads, 1);
    assert_eq!(stats.total_writes, 1);
    assert_eq!(stats.total_computes, 1);
}

#[test]
fn test_fabric_db_insert_and_query() {
    let mut fabric = Fabric::new(FabricConfig::default()).expect("Failed to create fabric");
    fabric.initialize().expect("Failed to initialize");

    let fields = vec![
        ("id".to_string(), BitslicedLane::from_bytes(&[42])),
        ("name".to_string(), BitslicedLane::from_bytes(b"Alice")),
        ("age".to_string(), BitslicedLane::from_bytes(&[30])),
    ];
    let record = Record::new(0x1000, fields);

    fabric.db_insert_record(&record).expect("Failed to insert record");

    let result = fabric.query_scan(0x1000, 5, 0, 0xFFFF, |_, reg| reg.payload.len() > 0, RegisterAddress::zero());

    assert_eq!(result.match_count, 3);
    assert!(result.scanned_count > 0);
}

#[test]
fn test_fabric_db_delete() {
    let mut fabric = Fabric::new(FabricConfig::default()).expect("Failed to create fabric");
    fabric.initialize().expect("Failed to initialize");

    let fields = vec![("id".to_string(), BitslicedLane::from_bytes(&[42]))];
    let record = Record::new(0x1000, fields);
    fabric.db_insert_record(&record).unwrap();

    fabric.db_delete_record(0x1000, 42).unwrap();

    let addr = RegisterAddress::new(0x1000, 5, 0, 0xFFFF, 42, 0);
    let reg = fabric.read(addr);
    assert!(reg.is_some());
    assert!(reg.unwrap().payload.get_bit(0));
}

#[test]
fn test_raw_vs_resolved_read() {
    let mut fabric = Fabric::new(FabricConfig::default()).expect("Failed to create fabric");
    fabric.initialize().expect("Failed to initialize");

    let addr = RegisterAddress::new(0, 1, 0, 0, 0, 0);
    let base_payload = BitslicedLane::from_bits(&[true, false, true, false]);
    fabric.write(addr, Register::new(addr, base_payload.clone())).unwrap();

    let raw = fabric.read_raw(addr).unwrap();
    assert_eq!(raw.payload.get_bit(0), true);
    assert_eq!(raw.payload.get_bit(1), false);

    let resolved = fabric.resolve(addr).unwrap();
    assert_eq!(resolved.payload.get_bit(0), true);
}

#[test]
fn test_inject_adapt_raw() {
    let mut fabric = Fabric::new(FabricConfig::default()).expect("Failed to create fabric");
    fabric.initialize().expect("Failed to initialize");

    let addr = RegisterAddress::new(0, 1, 0, 0, 0, 0);
    let base_payload = BitslicedLane::from_bits(&[true, false, true, false]);
    fabric.write(addr, Register::new(addr, base_payload)).unwrap();

    let delta = BitslicedLane::from_bits(&[false, true, false, false]);
    fabric.inject_adapt_raw(addr, delta).unwrap();

    let raw = fabric.read_raw(addr).unwrap();
    assert_eq!(raw.payload.get_bit(0), true);
    assert_eq!(raw.payload.get_bit(1), true);
    assert_eq!(raw.payload.get_bit(2), true);
    assert_eq!(raw.payload.get_bit(3), false);
}

#[test]
fn fabric_without_tiers_is_refused() {
    let mut config = FabricConfig::default();
    config.tiers.clear();
    let err = Fabric::new(config).unwrap_err();
    assert_eq!(err, "At least one tier is required");
}

#[test]
fn fabric_read_of_missing_register_is_none() {
    let mut fabric = Fabric::new(FabricConfig::default()).unwrap();
    assert!(fabric.read(RegisterAddress::new(0, 1, 2, 3, 4, 0)).is_none());
    assert_eq!(fabric.stats().total_reads, 1);
    assert!(fabric.inject_adapt_raw(RegisterAddress::new(0, 1, 2, 3, 4, 0), BitslicedLane::from_bits(&[true])).is_err());
}

#[test]
fn fabric_write_then_read_gives_written_payload() {
    let mut fabric = Fabric::new(FabricConfig::default()).unwrap();
    let addr = RegisterAddress::new(0, 2, 0, 1, 1, 0);
    let reg = Register::new(addr, BitslicedLane::from_bits(&[false, true, true]));
    fabric.write(addr, reg.clone()).unwrap();
    let back = fabric.read(addr).unwrap();
    assert_eq!(back.payload.to_bits(), reg.payload.to_bits());
    assert_eq!(back.xor_lineage, reg.xor_lineage);
    assert_eq!(back.checksum_anchor, reg.checksum_anchor);
    assert_eq!(fabric.register_count(), 1);
}

#[test]
fn fabric_models_attach_get_remove() {
    let mut fabric = Fabric::new(FabricConfig::default()).unwrap();
    fabric.attach_model("m", "", QuantizationLevel::Q8_0, false, None).unwrap();
    assert!(fabric.get_model("m").is_some());
    assert!(fabric.get_model("other").is_none());
    assert!(fabric.attach_delta_model("d", "missing").is_err());
    assert!(fabric.remove_model("m").is_some());
    assert!(fabric.get_model("m").is_none());
}

#[test]
fn fabric_networks() {
    let mut fabric = Fabric::new(FabricConfig::default()).unwrap();
    let net = fabric.attach_network("n", RegisterAddress::from(7u128), 8);
    assert_eq!(net.num_nodes(), 8);
    assert!(fabric.get_network("n").is_some());
    assert_eq!(fabric.eval_network("n").unwrap().popcount(), 0);
    assert!(fabric.eval_network("x").is_none());
}

#[test]
fn fabric_db_delete_marks_tombstone_with_one_bit() {
    let mut fabric = Fabric::new(FabricConfig::default()).unwrap();
    fabric.db_delete_record(0x2000, 3).unwrap();
    let reg = fabric.read(RegisterAddress::new(0x2000, 5, 0, 0xFFFF, 3, 0)).unwrap();
    assert_eq!(reg.payload.len(), 1);
}

#[test]
fn fabric_db_update_of_missing_record_fails() {
    let mut fabric = Fabric::new(FabricConfig::default()).unwrap();
    let err = fabric.db_update_record_field(0x1000, 0, "age", BitslicedLane::from_bytes(&[31])).unwrap_err();
    assert_eq!(err, "Record not found: entity_type=4096, entity_id=0");
}

#[test]
fn fabric_precondition_checks() {
    let mut fabric = Fabric::new(FabricConfig::default()).unwrap();
    let a = RegisterAddress::new(0, 1, 2, 3, 4, 0);
    assert_eq!(fabric.stored_len(a), None);
    fabric.write(a, Register::new(a, BitslicedLane::from_bits(&[true, false]))).unwrap();
    assert_eq!(fabric.stored_len(a), Some(2));
    assert!(fabric.is_resolvable(a));
    assert!(fabric.can_adapt(a));
    // the dependent (shard + 1) with another length blocks an adaptation of a
    let dep = a.child(1);
    fabric.write(dep, Register::new(dep, BitslicedLane::from_bits(&[true]))).unwrap();
    assert!(!fabric.can_adapt(a));
    let add = native(ArithmeticOp::Add, vec![a, dep], a);
    assert!(!fabric.can_compute(&add));
    let add = native(ArithmeticOp::Add, vec![a, a], a);
    assert!(fabric.can_compute(&add));
    assert_eq!(fabric.stats().total_reads, 0);
}

#[test]
fn fabric_counts_rotation_rounds() {
    let mut fabric = Fabric::new(FabricConfig::default()).expect("Failed to create fabric");
    let results = vec![
        RotationResult { layer_id: 1, movements: 3, echoes_processed: 2, prefetches: 0 },
        RotationResult { layer_id: 12, movements: 5, echoes_processed: 4, prefetches: 7 },
    ];
    assert!(fabric.record_rotations(&results));
    let stats = fabric.stats();
    assert_eq!(stats.total_rotations, 2);
    assert_eq!(stats.total_echoes_processed, 6);
    assert_eq!(stats.total_prefetches, 7);
    let huge = vec![RotationResult { layer_id: 0, movements: 0, echoes_processed: usize::MAX, prefetches: 0 }];
    assert!(fabric.record_rotations(&huge) == (usize::MAX as u128 + 6 <= u64::MAX as u128));
    assert!(fabric.record_rotations(&[]));
    assert_eq!(fabric.stats().total_rotations, if usize::MAX as u128 + 6 <= u64::MAX as u128 { 3 } else { 2 });
}

#[test]
fn fabric_records_a_compute_run_elsewhere() {
    let mut fabric = Fabric::new(FabricConfig::default()).expect("Failed to create fabric");
    let a = RegisterAddress::new(0, 1, 0, 0, 0, 0);
    let out = RegisterAddress::new(0, 1, 0, 0, 9, 0);
    fabric.write(a, Register::new(a, BitslicedLane::from_bits(&[true, false]))).unwrap();
    let op = ComputeOp::new(ArithmeticOp::Softmax, vec![a, RegisterAddress::new(0, 1, 0, 0, 5, 0)], out);
    let operands = fabric.operands_of(&op);
    assert_eq!(operands.len(), 1);
    assert_eq!(operands[0].to_bits(), vec![true, false]);

    let none = fabric.record_compute(&op, None, ComputeResult::default());
    assert!(!none.success);
    assert_eq!(none.error_message.unwrap(), "No suitable backend found");
    assert!(fabric.read_raw(out).is_none());

    let mut outcome = ComputeResult::default();
    outcome.success = true;
    outcome.backend_used = Some(BackendId::MLX());
    outcome.payload = Some(BitslicedLane::from_bits(&[false, true, true]));
    let r = fabric.record_compute(&op, Some(BackendId::MLX()), outcome);
    assert!(r.success);
    assert_eq!(fabric.read_raw(out).unwrap().payload.to_bits(), vec![false, true, true]);
    assert_eq!(fabric.stats().total_computes, 2);
}
