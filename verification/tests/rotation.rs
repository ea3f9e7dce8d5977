use binetic::rotation::{rotation_outcome, RotationResult, ThermalState};

#[test]
fn rotation_outcome_unknown_layer_is_zero() {
    let r = rotation_outcome(3, None, true, 9);
    assert_eq!(r, RotationResult { layer_id: 3, movements: 0, echoes_processed: 0, prefetches: 0 });
}

#[test]
fn rotation_outcome_counts() {
    let r = rotation_outcome(12, Some(123), true, 4);
    assert_eq!(r, RotationResult { layer_id: 12, movements: 23, echoes_processed: 4, prefetches: 3 });
    let r = rotation_outcome(10, Some(123), true, 0);
    assert_eq!(r.prefetches, 0);
    let r = rotation_outcome(12, Some(123), false, 0);
    assert_eq!(r.prefetches, 0);
    assert_eq!(RotationResult::default().movements, 0);
    assert_ne!(ThermalState::Hot, ThermalState::Cool);
}
