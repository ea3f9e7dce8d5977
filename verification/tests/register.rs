use binetic::address::RegisterAddress;
use binetic::bitslice::BitslicedLane;
use binetic::register::{CombiningMethod, CompoundRegister, Record, Register, SCHEMA_VERSION};

#[test]
fn test_register_creation() {
    let addr = RegisterAddress::new(0, 1, 2, 3, 4, 0);
    let payload = BitslicedLane::from_bytes(&[0xD3, 0x7A, 0xB2, 0xF1]);
    let reg = Register::new(addr, payload);

    assert_eq!(reg.address, addr);
    assert_eq!(reg.version, SCHEMA_VERSION);
    assert!(reg.lineage_consistent());
    assert!(reg.checksum_valid());
}

#[test]
fn register_delta_update_keeps_lineage_consistent() {
    let addr = RegisterAddress::new(0, 1, 2, 3, 4, 0);
    let payload = BitslicedLane::from_bytes(&[0xD3, 0x7A, 0xB2, 0xF1]);
    let mut reg = Register::new(addr, payload);

    let old_lineage = reg.xor_lineage;
    let old_echo = reg.echo_counter;

    // A delta that flips the first bit
    let delta = BitslicedLane::from_bytes(&[0x80, 0x00, 0x00, 0x00]);
    reg.update_with_delta(&delta);

    assert_eq!(reg.echo_counter, old_echo + 1);
    assert_ne!(reg.xor_lineage, old_lineage);
    assert!(reg.lineage_consistent());
    assert!(reg.checksum_valid());
    assert!(!reg.payload.get_bit(0));
}

#[test]
fn test_register_fold() {
    let addr_a = RegisterAddress::new(0, 1, 2, 3, 0, 0);
    let addr_b = RegisterAddress::new(0, 1, 2, 3, 1, 0);

    let payload_a = BitslicedLane::from_bytes(&[0xFF, 0xFF, 0xFF, 0xFF]);
    let payload_b = BitslicedLane::from_bytes(&[0x0F, 0x0F, 0x0F, 0x0F]);

    let mut reg_a = Register::new(addr_a, payload_a);
    let reg_b = Register::new(addr_b, payload_b);

    reg_a.fold_with(&reg_b);

    // After fold, reg_a's payload should be XOR of both
    let expected = BitslicedLane::from_bytes(&[0xF0, 0xF0, 0xF0, 0xF0]);
    assert_eq!(reg_a.payload.as_bytes(), expected.as_bytes());
}

#[test]
fn test_xor_chain_compound() {
    let base0 = Register::new(
        RegisterAddress::new(0, 1, 0, 0, 0, 0),
        BitslicedLane::from_bits(&[true, false, true, false]),
    );
    let base1 = Register::new(
        RegisterAddress::new(0, 1, 0, 0, 1, 0),
        BitslicedLane::from_bits(&[false, true, false, true]),
    );

    let compound = CompoundRegister::new(CombiningMethod::XorChain, &[base0, base1]);

    assert_eq!(compound.base_count, 2);
    assert_eq!(compound.precision_bits, 128);
    assert_eq!(compound.combining, CombiningMethod::XorChain);

    // XOR of [true, false, true, false] and [false, true, false, true]
    assert!(compound.payload.all_set());
}

#[test]
fn test_sequential_compound() {
    let base0 = Register::new(
        RegisterAddress::new(0, 1, 0, 0, 0, 0),
        BitslicedLane::from_bits(&[true, false]),
    );
    let base1 = Register::new(
        RegisterAddress::new(0, 1, 0, 0, 1, 0),
        BitslicedLane::from_bits(&[false, true]),
    );

    let compound = CompoundRegister::new(CombiningMethod::Sequential, &[base0, base1]);

    assert_eq!(compound.base_count, 2);
    assert_eq!(compound.precision_bits, 128);
    assert_eq!(compound.combining, CombiningMethod::Sequential);
}

/// What looking up each base address of `compound` finds among `known`.
fn lookups(compound: &CompoundRegister, known: &[Register]) -> Vec<Option<Register>> {
    compound
        .base_addresses()
        .iter()
        .map(|a| known.iter().find(|r| r.address == *a).cloned())
        .collect()
}

#[test]
fn test_compound_consistency() {
    let base0 = Register::new(
        RegisterAddress::new(0, 1, 0, 0, 0, 0),
        BitslicedLane::from_bits(&[true]),
    );
    let base1 = Register::new(
        RegisterAddress::new(0, 1, 0, 0, 1, 0),
        BitslicedLane::from_bits(&[false]),
    );

    let compound = CompoundRegister::new(CombiningMethod::XorChain, &[base0.clone(), base1.clone()]);

    let found = lookups(&compound, &[base0, base1]);
    assert!(compound.is_consistent(&found));
}

#[test]
fn test_compound_register_xor_chain() {
    let base0_addr = RegisterAddress::new(0, 1, 0, 0, 0, 0);
    let base1_addr = RegisterAddress::new(0, 1, 0, 0, 1, 0);

    let base0 = Register::new(base0_addr, BitslicedLane::from_bits(&[true, false, true, false]));
    let base1 = Register::new(base1_addr, BitslicedLane::from_bits(&[false, true, false, true]));

    let compound = CompoundRegister::new(CombiningMethod::XorChain, &[base0, base1]);

    assert_eq!(compound.base_count, 2);
    assert_eq!(compound.precision_bits, 128);
    assert!(compound.payload.all_set());
}

#[test]
fn test_compound_register_sequential() {
    let base0 = Register::new(
        RegisterAddress::new(0, 1, 0, 0, 0, 0),
        BitslicedLane::from_bits(&[true, false]),
    );
    let base1 = Register::new(
        RegisterAddress::new(0, 1, 0, 0, 1, 0),
        BitslicedLane::from_bits(&[false, true]),
    );

    let b0 = base0.clone();
    let b1 = base1.clone();

    let compound = CompoundRegister::new(CombiningMethod::Sequential, &[b0, b1]);

    assert_eq!(compound.base_count, 2);
    assert_eq!(compound.precision_bits, 128);
    assert_eq!(compound.combining, CombiningMethod::Sequential);
    let found = lookups(&compound, &[base0, base1]);
    assert!(compound.is_consistent(&found));
}

#[test]
fn test_record_creation() {
    let fields = vec![
        ("id".to_string(), BitslicedLane::from_bytes(&[42])),
        ("name".to_string(), BitslicedLane::from_bytes("Alice".as_bytes())),
        ("age".to_string(), BitslicedLane::from_bytes(&[30])),
    ];

    let record = Record::new(0x1000, fields);

    assert_eq!(record.metadata.entity_type, 0x1000);
    assert_eq!(record.schema.len(), 3);
    assert_eq!(record.compound.base_count, 3);
}

#[test]
fn test_record_update() {
    let fields = vec![("age".to_string(), BitslicedLane::from_bytes(&[30]))];

    let mut record = Record::new(0x1000, fields);

    let new_age = BitslicedLane::from_bytes(&[31]);
    let delta = record.update_field("age", new_age);

    assert!(delta.is_some());
    assert_eq!(record.metadata.version, 2);
}

#[test]
fn register_checksum_of_known_payload() {
    // The checksum is the first 8 bytes of SHA-256 over the payload's bytes
    // (one byte per bit: 0x80 or 0x00), little-endian. SHA-256 of the
    // single byte 0x80 starts 76 be 8b 52 8d 00 75 f7.
    let reg = Register::new(RegisterAddress::new(0, 1, 0, 0, 0, 0), BitslicedLane::from_bits(&[true]));
    assert_eq!(reg.checksum_anchor, u64::from_le_bytes([0x76, 0xbe, 0x8b, 0x52, 0x8d, 0x00, 0x75, 0xf7]));
    assert!(reg.checksum_valid());
}

#[test]
fn register_delta_twice_restores_payload() {
    let addr = RegisterAddress::new(0, 1, 2, 3, 4, 0);
    let mut reg = Register::new(addr, BitslicedLane::from_bits(&[true, false, true, true]));
    let original = reg.payload.to_bits();
    let lineage = reg.xor_lineage;
    let delta = BitslicedLane::from_bits(&[false, true, true, false]);
    reg.update_with_delta(&delta);
    reg.update_with_delta(&delta);
    assert_eq!(reg.payload.to_bits(), original);
    assert_eq!(reg.xor_lineage, lineage);
    assert_eq!(reg.echo_counter, 2);
}

#[test]
fn register_tampered_payload_is_detected() {
    let addr = RegisterAddress::new(0, 1, 2, 3, 4, 0);
    let mut reg = Register::new(addr, BitslicedLane::from_bits(&[true, false, true, true]));
    reg.payload.set_bit(1, true);
    assert!(!reg.checksum_valid());
    assert!(!reg.lineage_consistent());
}

#[test]
fn register_echo_counter_and_temperature() {
    let mut reg = Register::new(RegisterAddress::new(0, 1, 2, 3, 4, 0), BitslicedLane::from_bits(&[true]));
    assert!(reg.is_hot());
    assert!(!reg.is_cold());
    for _ in 0..300 {
        reg.record_echo();
    }
    assert_eq!(reg.echo_counter, 255);
    reg.reset_echo();
    assert_eq!(reg.echo_counter, 0);
    let cold = Register::new(RegisterAddress::new(0, 13, 0, 0, 0, 0), BitslicedLane::from_bits(&[true]));
    assert!(cold.is_cold());
    assert!(!cold.is_hot());
}

#[test]
fn combining_precision_rules() {
    assert_eq!(CombiningMethod::XorChain.bases_for_precision(128), 2);
    assert_eq!(CombiningMethod::XorChain.precision_for_bases(3), 192);
}

#[test]
fn record_get_field_and_unknown_update() {
    let fields = vec![("age".to_string(), BitslicedLane::from_bytes(&[30]))];
    let mut record = Record::new(0x1000, fields);
    assert!(record.get_field("age").is_some());
    assert!(record.get_field("missing").is_none());
    assert!(record.update_field("missing", BitslicedLane::from_bytes(&[1])).is_none());
    assert_eq!(record.metadata.version, 1);
}

#[test]
fn register_to_bytes_layout() {
    let addr = RegisterAddress::new(1, 0, 0, 0, 0, 0);
    let reg = Register::new(addr, BitslicedLane::from_bits(&[true]));
    let bytes = reg.to_bytes(0x1122334455667788);
    assert_eq!(bytes.len(), 16 + 1 + 16 + 1 + 8 + 1 + 8 + 8);
    assert_eq!(&bytes[0..16], &1u128.to_le_bytes());
    assert_eq!(bytes[16], 0x80);
    assert_eq!(&bytes[17..33], &reg.xor_lineage.to_le_bytes());
    assert_eq!(bytes[33], 0);
    assert_eq!(&bytes[34..42], &reg.bloom_anchor.to_le_bytes());
    assert_eq!(bytes[42], reg.version);
    assert_eq!(&bytes[43..51], &0x1122334455667788u64.to_le_bytes());
    assert_eq!(&bytes[51..59], &reg.checksum_anchor.to_le_bytes());
}

#[test]
fn register_display_string() {
    let addr = RegisterAddress::new(1, 2, 3, 4, 5, 6);
    let reg = Register::new(addr, BitslicedLane::from_bits(&[true, false]));
    let expected = format!(
        "Register[Addr(spine=0001, L0002, R0003, S0004, Sh0005, T0006)] payload=2bytes lineage=0x{:032X} echo=0 bloom=0x{:016X} v0",
        reg.xor_lineage, reg.bloom_anchor
    );
    assert_eq!(reg.to_display_string(), expected);
}

#[test]
fn register_hashes_depend_on_address_and_payload() {
    let a = RegisterAddress::new(0, 1, 2, 3, 4, 0);
    let b = RegisterAddress::new(0, 1, 2, 3, 5, 0);
    let p = BitslicedLane::from_bits(&[true, false, true]);
    let q = BitslicedLane::from_bits(&[true, true, true]);
    let ra = Register::new(a, p.clone());
    let rb = Register::new(b, p.clone());
    let rq = Register::new(a, q);
    assert_ne!(ra.xor_lineage, rb.xor_lineage);
    assert_ne!(ra.bloom_anchor, rb.bloom_anchor);
    assert_ne!(ra.bloom_anchor, rq.bloom_anchor);
    assert_ne!(ra.checksum_anchor, rq.checksum_anchor);
}

#[test]
fn record_get_field_returns_the_fields_own_value() {
    let rec = Record::new(
        0x1000,
        vec![("id".to_string(), BitslicedLane::from_bytes(&[42])), ("age".to_string(), BitslicedLane::from_bytes(&[30]))],
    );
    assert_eq!(rec.get_field("age"), Some(&BitslicedLane::from_bytes(&[30])));
    assert_eq!(rec.get_field("id"), Some(&BitslicedLane::from_bytes(&[42])));
    assert_eq!(rec.get_field("name"), None);
}

#[test]
fn record_update_field_stores_the_new_value() {
    let mut rec = Record::new(0x1000, vec![("age".to_string(), BitslicedLane::from_bits(&[true, false]))]);
    let delta = rec.update_field("age", BitslicedLane::from_bits(&[true, true])).unwrap();
    assert_eq!(delta.to_bits(), vec![false, true]);
    assert_eq!(rec.get_field("age").unwrap().to_bits(), vec![true, true]);
    assert_eq!(rec.metadata.version, 2);
}

#[test]
fn xor_chain_compound_payload_is_all_set() {
    let b0 = Register::new(RegisterAddress::new(0, 1, 0, 0, 0, 0), BitslicedLane::from_bits(&[true, false, true, false]));
    let b1 = Register::new(RegisterAddress::new(0, 1, 0, 0, 1, 0), BitslicedLane::from_bits(&[false, true, false, true]));
    let c = CompoundRegister::new(CombiningMethod::XorChain, &[b0.clone(), b1.clone()]);
    assert!(c.payload.all_set());
    assert_eq!(c.payload.popcount(), 4);
    assert_eq!(c.xor_lineage, b0.xor_lineage ^ b1.xor_lineage);
}
