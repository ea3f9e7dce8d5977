use binetic::address::RegisterAddress;
use binetic::network::NetworkRegister;

#[test]
fn test_network_register_creation() {
    let addr = RegisterAddress::from(0u128);
    let reg = NetworkRegister::new(addr, 4);
    assert_eq!(reg.num_nodes(), 4);
    assert!(reg.children.is_empty());
    assert_eq!(reg.depth, 0);
}

#[test]
fn test_network_register_evaluate() {
    let addr = RegisterAddress::from(1u128);
    let mut reg = NetworkRegister::new(addr, 4);

    // Set spatial: node 0 connects to node 1
    reg.lane.spatial.set_bit(0, true);
    // Set temporal: node 0 is active
    reg.lane.temporal.set_bit(0, true);

    let active = reg.evaluate();
    assert!(active.any_set());
}

#[test]
fn test_network_register_recursive_growth() {
    let addr = RegisterAddress::from(2u128);
    let mut reg = NetworkRegister::new(addr, 4);

    // Add a child (recursive growth)
    let child_addr = RegisterAddress::from(3u128);
    reg.add_child(1, child_addr, 2);

    assert_eq!(reg.children.len(), 1);
    assert_eq!(reg.child(1).unwrap().depth, 1);

    // Evaluate recursively
    let results = reg.evaluate_recursive();
    assert_eq!(results.len(), 2); // self + 1 child
}

#[test]
fn test_network_register_no_slowdown() {
    let addr = RegisterAddress::from(4u128);
    let mut reg = NetworkRegister::new(addr, 64);

    // Set many connections
    for i in 0..64 {
        reg.lane.spatial.set_bit(i, true);
        reg.lane.temporal.set_bit(i, i % 2 == 0);
    }

    let active = reg.evaluate();
    // 32 even indices should be active
    assert_eq!(active.popcount(), 32);

    // Add children
    for i in 0..4 {
        let child_addr = RegisterAddress::from((100 + i) as u128);
        reg.add_child(i, child_addr, 8);
    }

    let results = reg.evaluate_recursive();
    assert_eq!(results.len(), 5); // self + 4 children
    for (_, lane) in &results {
        let _ = lane.popcount();
    }
}

#[test]
fn network_add_child_replaces_same_id() {
    let mut reg = NetworkRegister::new(RegisterAddress::from(5u128), 4);
    reg.add_child(7, RegisterAddress::from(6u128), 2);
    reg.add_child(7, RegisterAddress::from(8u128), 3);
    assert_eq!(reg.children.len(), 1);
    assert_eq!(reg.child(7).unwrap().num_nodes(), 3);
    assert!(reg.child(9).is_none());
}

#[test]
fn network_connections_by_node_pair() {
    let mut reg = NetworkRegister::new(RegisterAddress::from(9u128), 16);
    // node pair (0, 2) is bit 2 of each plane; (1, 2) would be bit 18, past the end
    reg.set_spatial(0, 2, true);
    reg.set_temporal(0, 2, true);
    reg.set_spatial(0, 3, true);
    reg.set_spatial(1, 2, true);
    assert_eq!(reg.evaluate().popcount(), 1);
    assert_eq!(reg.total_active_connections(), 1);
}

#[test]
fn network_resize_sets_node_count() {
    let mut r = NetworkRegister::new(RegisterAddress::zero(), 4);
    assert_eq!(r.num_nodes(), 4);
    r.resize(8);
    assert_eq!(r.num_nodes(), 8);
    assert_eq!(r.lane.len(), 64);
}

#[test]
fn network_evaluate_recursive_reaches_grandchildren() {
    let mut r = NetworkRegister::new(RegisterAddress::from(2u128), 4);
    r.add_child(1, RegisterAddress::from(3u128), 2);
    r.child_mut(1).unwrap().add_child(7, RegisterAddress::from(5u128), 2);
    let results = r.evaluate_recursive();
    assert_eq!(results.len(), 3);
    assert_eq!(results[0].0, 0);
    assert_eq!(results[1].0, 1);
    assert_eq!(results[2].0, 7);
}
