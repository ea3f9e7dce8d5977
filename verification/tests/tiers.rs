use binetic::tiers::{default_tiers_mac_8gb, typical_capacity, Tier, TierId, TierSet, VirtualTier};

#[test]
fn test_tier_creation() {
    let tier = Tier::new(TierId::WARM(), "test", "test tier", 1024, 2, 10);
    assert_eq!(tier.id, TierId::WARM());
    assert_eq!(tier.capacity_bytes, 1024);
    assert!(tier.contains_layer(5));
    assert!(!tier.contains_layer(1));
    assert!(!tier.contains_layer(11));
}

#[test]
fn test_tier_set() {
    let tiers = vec![
        Tier::new(TierId::HOT(), "hot", "hot", 1024, 0, 1),
        Tier::new(TierId::WARM(), "warm", "warm", 1024 * 1024, 2, 10),
        Tier::new(TierId::COLD(), "cold", "cold", 1024 * 1024 * 1024, 11, 100),
    ];
    let set = TierSet::new(tiers);

    assert_eq!(set.tier_for_layer(0).unwrap().id, TierId::HOT());
    assert_eq!(set.tier_for_layer(5).unwrap().id, TierId::WARM());
    assert_eq!(set.tier_for_layer(50).unwrap().id, TierId::COLD());
    assert!(set.tier_for_layer(200).is_none());
}

#[test]
fn tier_available_bytes_saturates() {
    let mut tier = Tier::new(TierId::HOT(), "hot", "hot", 100, 0, 1);
    assert_eq!(tier.available_bytes(), 100);
    tier.used_bytes = 40;
    assert_eq!(tier.available_bytes(), 60);
    tier.used_bytes = 400;
    assert_eq!(tier.available_bytes(), 0);
}

#[test]
fn tier_set_totals() {
    let mut a = Tier::new(TierId::HOT(), "hot", "hot", 100, 0, 1);
    a.used_bytes = 30;
    let b = Tier::new(TierId::WARM(), "warm", "warm", 50, 2, 3);
    let set = TierSet::new(vec![a, b]);
    assert_eq!(set.total_capacity(), 150);
    assert_eq!(set.total_used(), 30);
    assert_eq!(set.total_available(), 120);
    assert_eq!(set.all_tiers().len(), 2);
    assert!(set.tier_by_id(TierId::WARM()).is_some());
    assert!(set.tier_by_id(TierId::GPU()).is_none());
}

#[test]
fn default_mac_tiers_cover_layers() {
    let tiers = default_tiers_mac_8gb();
    assert_eq!(tiers.len(), 4);
    let set = TierSet::new(tiers);
    assert_eq!(set.tier_for_layer(0).unwrap().id, TierId::HOT());
    assert_eq!(TierSet::default_tiers_mac_8gb().len(), 4);
}

#[test]
fn tier_ids_and_capacities() {
    assert_eq!(TierId::HOT().as_u8(), 0);
    assert_eq!(TierId::from_u8(3), TierId::COLD());
    assert_eq!(typical_capacity(TierId::HOT()), 0);
    assert_eq!(typical_capacity(TierId::COLD()), 1024);
    let v = VirtualTier::new_temporal("scratch", 4096);
    assert_eq!(v.size, 4096);
    assert!(v.tier.contains_layer(0));
}

#[test]
fn tier_display_names() {
    assert_eq!(TierId::HOT().to_display_string(), "Tier::Hot");
    assert_eq!(TierId::GPU().to_display_string(), "Tier::Gpu");
    assert_eq!(TierId::REMOTE().to_display_string(), "Tier::Remote");
}
