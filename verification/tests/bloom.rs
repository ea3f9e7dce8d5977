use binetic::bloom::{BloomRegistry, SectorBloom, SectorKey};

/// The element-count estimate of a filter: -m/k * ln(1 - set/m).
fn estimated_count(bloom: &SectorBloom) -> usize {
    let m = bloom.num_bits() as f64;
    let k = bloom.num_hashes() as f64;
    let set = bloom.bit_count() as f64;
    if set >= m {
        return usize::MAX;
    }
    let fraction = set / m;
    if fraction <= 0.0 {
        return 0;
    }
    (-(m / k) * (1.0 - fraction).ln()) as usize
}

#[test]
fn test_bloom_insert_and_might_contain() {
    let mut bloom = SectorBloom::new(256, 3, 0xDEADBEEF);

    // Insert some addresses
    bloom.insert(0x1234567890ABCDEF_u128);
    bloom.insert(0xFEDCBA0987654321_u128);

    // Check that inserted addresses might be contained
    assert!(bloom.might_contain(0x1234567890ABCDEF_u128));
    assert!(bloom.might_contain(0xFEDCBA0987654321_u128));

    // Non-inserted addresses may be false positives; the filter is not empty
    let _result = bloom.might_contain(0xAAAAAAAAAAAAAAAA_u128);
    assert!(estimated_count(&bloom) >= 2);
}

#[test]
fn test_bloom_does_not_contain() {
    let mut bloom = SectorBloom::new(256, 3, 0xDEADBEEF);
    bloom.insert(0x1234_u128);
    assert!(bloom.might_contain(0x1234_u128));
}

#[test]
fn test_bloom_merge() {
    let mut bloom_a = SectorBloom::new(256, 3, 0xAAAA);
    let mut bloom_b = SectorBloom::new(256, 3, 0xBBBB);

    bloom_a.insert(0x1111_u128);
    bloom_b.insert(0x2222_u128);

    let mut merged = bloom_a.clone();
    merged.merge(&bloom_b);

    // Merged should might-contain both
    assert!(merged.might_contain(0x1111_u128));
    assert!(merged.might_contain(0x2222_u128));
}

#[test]
fn test_bloom_registry() {
    let mut registry = BloomRegistry::new();

    let key = SectorKey::new(0, 1, 2, 3);

    registry.insert_into_sector(key, 0x1234_u128);
    registry.insert_into_sector(key, 0x5678_u128);

    assert!(registry.sector_might_contain(key, 0x1234_u128));
    assert!(registry.sector_might_contain(key, 0x5678_u128));
    assert_eq!(registry.sector_count(), 1);
}

#[test]
fn bloom_empty_contains_nothing() {
    let bloom = SectorBloom::new(256, 3, 7);
    assert_eq!(bloom.bit_count(), 0);
    assert!(!bloom.might_contain(0x1234));
    assert!(bloom.does_not_contain(0x1234));
    assert_eq!(bloom.num_bits(), 256);
    assert_eq!(bloom.num_hashes(), 3);
    assert_eq!(bloom.anchor(), 7);
}

#[test]
fn bloom_insert_sets_at_most_k_bits() {
    let mut bloom = SectorBloom::new(256, 3, 7);
    bloom.insert(0xABCDEF);
    assert!(bloom.bit_count() >= 1 && bloom.bit_count() <= 3);
}

#[test]
fn bloom_rebuild_keeps_only_given_addresses() {
    let mut bloom = SectorBloom::new(1024, 3, 7);
    bloom.insert(0x1111);
    bloom.rebuild(&[0x2222, 0x3333]);
    assert!(bloom.might_contain(0x2222));
    assert!(bloom.might_contain(0x3333));
}

#[test]
fn registry_unknown_sector_is_absent() {
    let registry = BloomRegistry::new();
    assert!(registry.get_bloom(SectorKey::new(1, 2, 3, 4)).is_none());
    assert!(!registry.sector_might_contain(SectorKey::new(1, 2, 3, 4), 5));
    assert_eq!(registry.sector_count(), 0);
}

#[test]
fn registry_aggregate_covers_children() {
    let mut registry = BloomRegistry::new();
    let a = SectorKey::new(0, 1, 2, 3);
    let b = SectorKey::new(0, 1, 2, 4);
    registry.insert_into_sector(a, 0xAAAA);
    registry.insert_into_sector(b, 0xBBBB);
    let parent = registry.aggregate_to_parent(SectorKey::new(0, 1, 2, 0), &[a, b]);
    assert!(parent.might_contain(0xAAAA));
    assert!(parent.might_contain(0xBBBB));
}

#[test]
fn registry_keeps_sectors_apart() {
    let mut registry = BloomRegistry::new();
    registry.insert_into_sector(SectorKey::new(0, 1, 2, 3), 0x1234);
    registry.insert_into_sector(SectorKey::new(0, 1, 2, 4), 0x1234);
    assert_eq!(registry.sector_count(), 2);
    registry.clear();
    assert_eq!(registry.sector_count(), 0);
}

#[test]
fn bloom_rebuild_advances_generation_once() {
    let mut b = SectorBloom::new(256, 3, 7);
    b.insert(0x10);
    let g = b.generation();
    b.rebuild(&[0x1, 0x2, 0x3]);
    assert_eq!(b.generation(), g.wrapping_add(1));
    assert!(b.might_contain(0x1) && b.might_contain(0x2) && b.might_contain(0x3));
    b.rebuild(&[]);
    assert_eq!(b.generation(), g.wrapping_add(2));
    assert_eq!(b.bit_count(), 0);
}

#[test]
fn bloom_rebuild_matches_fresh_fill() {
    let addrs = [0x11u128, 0x2222, 0x3_3333];
    let mut b = SectorBloom::new(256, 3, 0x55);
    b.insert(0x9999);
    b.rebuild(&addrs);
    let mut fresh = SectorBloom::new(256, 3, 0x55);
    for a in addrs {
        fresh.insert(a);
    }
    for y in 0u128..2000 {
        assert_eq!(b.might_contain(y), fresh.might_contain(y));
    }
    assert_eq!(b.bit_count(), fresh.bit_count());
}

#[test]
fn bloom_without_bits_can_be_built() {
    let b = SectorBloom::new(0, 3, 1);
    assert_eq!(b.num_bits(), 0);
    assert_eq!(b.num_hashes(), 3);
}
