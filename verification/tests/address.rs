use binetic::address::ranges::{activation_address, control_address, delta_address, kv_address, weight_address};
use binetic::address::RegisterAddress;

#[test]
fn test_address_construction() {
    let addr = RegisterAddress::new(0x1234, 0x0001, 0x0002, 0x0003, 0x0004, 0x0005);
    assert_eq!(addr.spine(), 0x1234);
    assert_eq!(addr.layer(), 0x0001);
    assert_eq!(addr.ring(), 0x0002);
    assert_eq!(addr.sector(), 0x0003);
    assert_eq!(addr.shard(), 0x0004);
    assert_eq!(addr.temporal(), 0x0005);
}

#[test]
fn test_address_distance() {
    let a = RegisterAddress::new(0, 0, 0, 0, 0, 0);
    let b = RegisterAddress::new(1, 0, 0, 0, 0, 0);
    assert_eq!(a.distance(&b), 1); // only spine differs

    let c = RegisterAddress::new(0xFFFF, 0xFFFF, 0xFFFF, 0xFFFF, 0xFFFF, 0xFFFF);
    assert_eq!(a.distance(&c), 96); // all bits differ
}

#[test]
fn test_address_parent_child() {
    let addr = RegisterAddress::new(0, 1, 2, 3, 5, 0);
    let parent = addr.parent();
    assert_eq!(parent.shard(), 4);
    assert_eq!(parent.sector(), 3);

    let child = addr.child(3);
    assert_eq!(child.shard(), 8);
}

#[test]
fn address_bits_layout() {
    let addr = RegisterAddress::new(0x1234, 0x0001, 0x0002, 0x0003, 0x0004, 0x0005);
    assert_eq!(addr.bits(), 0x0005_0004_0003_0002_0001_1234u128);
    let round = RegisterAddress::from(addr.bits());
    assert_eq!(round, addr);
    let word: u128 = addr.into();
    assert_eq!(word, addr.bits());
}

#[test]
fn address_with_field_replaces_only_that_field() {
    let addr = RegisterAddress::new(1, 2, 3, 4, 5, 6);
    let moved = addr.with_sector(9);
    assert_eq!(moved.sector(), 9);
    assert_eq!(moved.spine(), 1);
    assert_eq!(moved.layer(), 2);
    assert_eq!(moved.ring(), 3);
    assert_eq!(moved.shard(), 5);
    assert_eq!(moved.temporal(), 6);
    assert!(moved.same_layer(&addr));
    assert!(!moved.same_sector(&addr));
}

#[test]
fn address_parent_of_shard_zero_wraps() {
    let addr = RegisterAddress::new(0, 1, 2, 3, 0, 0);
    assert_eq!(addr.parent().shard(), 0xFFFF);
}

#[test]
fn address_zero_is_invalid() {
    assert!(!RegisterAddress::zero().is_valid());
    assert!(RegisterAddress::new(0, 1, 0, 0, 0, 0).is_valid());
    assert!(RegisterAddress::new(0, 0, 0, 0, 0, 7).is_temporal());
}

#[test]
fn address_ranges_layout() {
    let w = weight_address(3, 4, 5);
    assert_eq!((w.spine(), w.layer(), w.ring(), w.sector(), w.shard(), w.temporal()), (0xD000, 3, 0, 4, 5, 0));
    let k = kv_address(7, 2, 1);
    assert_eq!((k.spine(), k.layer(), k.sector()), (0xE007, 2, 1));
    let a = activation_address(9);
    assert_eq!((a.spine(), a.temporal()), (0xF000, 9));
    let c = control_address(0x0000_1234_0000_5678);
    assert_eq!((c.spine(), c.sector(), c.shard()), (0xC000, 0x1234, 0x5678));
    let d = delta_address(2, 3, 4);
    assert_eq!((d.spine(), d.layer(), d.ring()), (0xA002, 4, 3));
}

#[test]
fn address_display_string() {
    let addr = RegisterAddress::new(0x1234, 0x0001, 0x0002, 0x00AB, 0x0004, 0xFFFF);
    assert_eq!(addr.to_display_string(), "Addr(spine=1234, L0001, R0002, S00ab, Sh0004, Tffff)");
}

#[test]
fn address_distance_symmetric_and_zero_on_self() {
    let a = RegisterAddress::new(1, 2, 3, 4, 5, 6);
    let b = RegisterAddress::new(6, 5, 4, 3, 2, 1);
    assert_eq!(a.distance(&b), b.distance(&a));
    assert_eq!(a.distance(&a), 0);
}

#[test]
fn address_neighbor_steps_cancel() {
    let a = RegisterAddress::new(1, 2, 3, 4, 5, 6);
    for d in [0u8, 2, 4, 6] {
        assert_eq!(a.neighbor(d).neighbor(d + 1), a);
        assert_eq!(a.neighbor(d + 1).neighbor(d), a);
    }
    assert_ne!(a.neighbor(0), a);
}

#[test]
fn address_parent_of_child_is_self() {
    let a = RegisterAddress::new(0, 1, 2, 3, 5, 0);
    assert_eq!(a.child(1).parent(), a);
    let last = RegisterAddress::new(0, 1, 2, 3, 0xFFFF, 0);
    assert_eq!(last.child(1).shard(), 0xFFFF);
}

#[test]
fn address_bits_popcount_is_sum_of_fields() {
    let a = RegisterAddress::new(0x00F0, 0x0003, 0x0100, 0xFFFF, 0x0001, 0x8000);
    let expected = 0x00F0u16.count_ones() + 3u16.count_ones() + 0x0100u16.count_ones() + 0xFFFFu16.count_ones()
        + 1u16.count_ones() + 0x8000u16.count_ones();
    assert_eq!(a.bits().count_ones(), expected);
    assert_eq!(RegisterAddress::new(0, 0, 0, 0, 0, 0).bits(), 0);
    assert_ne!(RegisterAddress::new(0, 0, 0, 0, 1, 0).bits(), RegisterAddress::new(0, 0, 0, 1, 0, 0).bits());
}

#[test]
fn address_from_conversions_round_trip() {
    let a = RegisterAddress::new(1, 2, 3, 4, 5, 6);
    assert_eq!(u128::from(a), a.bits());
    assert_eq!(RegisterAddress::from(a.bits()), a);
}
