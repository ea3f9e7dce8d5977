use binetic::bitslice::{BislicedArray, BislicedLane, BitslicedArray, BitslicedLane};

#[test]
fn test_lane_from_bytes() {
    let data = [0xD3, 0x7A, 0xB2];
    let lane = BitslicedLane::from_bytes(&data);
    assert_eq!(lane.len(), 3);
    // MSB of 0xD3 (11010011) is 1
    assert!(lane.get_bit(0));
    // MSB of 0x7A (01111010) is 0
    assert!(!lane.get_bit(1));
    // MSB of 0xB2 (10110010) is 1
    assert!(lane.get_bit(2));
}

#[test]
fn test_lane_xor() {
    let a = BitslicedLane::from_bits(&[true, false, true, false]);
    let b = BitslicedLane::from_bits(&[true, true, false, false]);

    let c = BitslicedLane::xor(&a, &b);
    assert_eq!(c.to_bits(), vec![false, true, true, false]);
}

#[test]
fn test_lane_popcount() {
    let lane = BitslicedLane::from_bits(&[true, false, true, true, false, false, true, false]);
    assert_eq!(lane.popcount(), 4);
}

#[test]
fn test_bitsliced_array() {
    let mut arr = BitslicedArray::new(8, 4);
    arr.set_value(0, 0xD3);
    arr.set_value(1, 0x7A);
    arr.set_value(2, 0xB2);
    arr.set_value(3, 0xF1);

    assert_eq!(arr.get_value(0), 0xD3);
    assert_eq!(arr.get_value(1), 0x7A);
    assert_eq!(arr.get_value(2), 0xB2);
    assert_eq!(arr.get_value(3), 0xF1);
}

#[test]
fn test_bitsliced_array_xor() {
    let mut a = BitslicedArray::new(8, 4);
    a.set_value(0, 0xD3);
    a.set_value(1, 0x7A);
    a.set_value(2, 0xB2);
    a.set_value(3, 0xF1);

    let mut b = BitslicedArray::new(8, 4);
    b.set_value(0, 0xB2);
    b.set_value(1, 0xF1);
    b.set_value(2, 0xD3);
    b.set_value(3, 0x7A);

    a.xor_merge(&b);

    assert_eq!(a.get_value(0), 0xD3 ^ 0xB2);
    assert_eq!(a.get_value(1), 0x7A ^ 0xF1);
    assert_eq!(a.get_value(2), 0xB2 ^ 0xD3);
    assert_eq!(a.get_value(3), 0xF1 ^ 0x7A);
}

#[test]
fn lane_set_and_get_out_of_range() {
    let mut lane = BitslicedLane::with_capacity(70);
    assert_eq!(lane.len(), 70);
    assert!(lane.none_set());
    lane.set_bit(69, true);
    lane.set_bit(70, true); // out of range: ignored
    assert!(lane.get_bit(69));
    assert!(!lane.get_bit(70));
    assert_eq!(lane.popcount(), 1);
    assert_eq!(lane.words().len(), 2);
}

#[test]
fn lane_xor_twice_restores() {
    let a = BitslicedLane::from_bits(&[true, false, true, true, false]);
    let d = BitslicedLane::from_bits(&[false, true, true, false, true]);
    let mut c = BitslicedLane::xor(&a, &d);
    c.xor_merge(&d);
    assert_eq!(c.to_bits(), a.to_bits());
}

#[test]
fn lane_not_and_counts() {
    let mut lane = BitslicedLane::from_bits(&[true, false, false]);
    lane.not_inplace();
    assert_eq!(lane.to_bits(), vec![false, true, true]);
    assert_eq!(lane.popcount(), 2);
    assert!(lane.any_set());
    assert!(!lane.all_set());
    let full = BitslicedLane::from_bits(&[true; 65]);
    assert!(full.all_set());
}

#[test]
fn lane_and_merge_and_hamming() {
    let mut a = BitslicedLane::from_bits(&[true, true, false, false]);
    let b = BitslicedLane::from_bits(&[true, false, true, false]);
    assert_eq!(a.hamming_distance(&b), 2);
    a.and_merge(&b);
    assert_eq!(a.to_bits(), vec![true, false, false, false]);
}

#[test]
fn lane_as_bytes_round_trip() {
    let lane = BitslicedLane::from_bits(&[true, false, true]);
    assert_eq!(lane.as_bytes(), vec![0x80, 0x00, 0x80]);
    let back = BitslicedLane::from_bytes(&lane.as_bytes());
    assert_eq!(back.to_bits(), lane.to_bits());
}

#[test]
fn lane_resize_keeps_prefix() {
    let mut lane = BitslicedLane::from_bits(&[true, true, true]);
    lane.resize(130);
    assert_eq!(lane.len(), 130);
    assert!(lane.get_bit(2));
    assert!(!lane.get_bit(100));
    lane.resize(1);
    assert_eq!(lane.len(), 1);
    assert!(lane.get_bit(0));
}

#[test]
fn bisliced_lane_evaluates_active_connections() {
    let lane = BislicedLane::from_spatial_temporal(&[true, true, false], &[true, false, true]);
    assert_eq!(lane.evaluate().to_bits(), vec![true, false, false]);
    assert_eq!(lane.active_count(), 1);
}

#[test]
fn lane_display_string() {
    let lane = BitslicedLane::from_bits(&[true, false, true]);
    assert_eq!(lane.to_display_string(), "BitslicedLane(bits=3 words=1 popcount=2)");
}

#[test]
fn lane_shrink_clears_bits_past_the_new_length() {
    let mut l = BitslicedLane::from_bits(&[true; 100]);
    l.resize(10);
    assert_eq!(l.len(), 10);
    assert_eq!(l.to_bits(), vec![true; 10]);
    assert_eq!(l.popcount(), 10);
    assert!(l.all_set());
    assert_eq!(l.words().len(), 1);
    l.resize(100);
    assert_eq!(l.get_bit(10), false);
    assert_eq!(l.popcount(), 10);
    assert!(!l.all_set());
}

#[test]
fn lane_popcount_counts_set_bits() {
    let l = BitslicedLane::from_bits(&[true, false, true, true, false, false, true, false]);
    assert_eq!(l.popcount(), 4);
    let mut n = l.clone();
    n.not_inplace();
    assert_eq!(n.popcount(), 4);
    assert_eq!(n.to_bits(), vec![false, true, false, false, true, true, false, true]);
}

#[test]
fn not_twice_restores_and_counts_the_rest() {
    let old = BitslicedLane::from_bits(&[true, false, true, true, false, false, true, false, true, true]);
    let mut l = BitslicedLane::from_bits(&[true, false, true, true, false, false, true, false, true, true]);
    l.not_inplace();
    assert_eq!(l.popcount(), old.len() - old.popcount());
    for i in 0..l.len() {
        assert_eq!(l.get_bit(i), !old.get_bit(i));
    }
    l.not_inplace();
    assert_eq!(l, old);
}

#[test]
fn evaluate_all_single_connection() {
    let mut a = BislicedArray::new(5);
    a.set_spatial(2, 4, true);
    a.set_temporal(2, 4, true);
    let r = a.evaluate_all();
    assert_eq!(r.len(), 5);
    assert_eq!(r[2].len(), 5);
    assert!(r[2].get_bit(4));
    assert_eq!(r[2].popcount(), 1);
    for i in 0..5 {
        if i != 2 {
            assert!(r[i].none_set());
        }
    }
}

#[test]
fn from_bits_reads_back() {
    let b = [true, false, false, true, true];
    let l = BitslicedLane::from_bits(&b);
    assert_eq!(l.to_bits(), b.to_vec());
    assert_eq!(l.len(), b.len());
    assert!(l.get_bit(3));
    assert!(!l.get_bit(5));
    assert!(!l.get_bit(1000));
}
