use tracer::bits::{_ispowerof2, _power2, get_reversed_bits, intlog2};

#[test]
fn intlog2_powers_of_two() {
    assert_eq!(intlog2(1), 0);
    assert_eq!(intlog2(2), 1);
    assert_eq!(intlog2(64), 6);
    assert_eq!(intlog2(1024), 10);
    assert_eq!(intlog2(16384), 14);
}

#[test]
fn intlog2_rounds_up_between_powers() {
    assert_eq!(intlog2(3), 2);
    assert_eq!(intlog2(5), 3);
    assert_eq!(intlog2(1000), 10);
    assert_eq!(intlog2(u32::MAX), 32);
}

#[test]
fn intlog2_zero_is_zero() {
    assert_eq!(intlog2(0), 0);
}

#[test]
fn ispowerof2_accepts_powers() {
    assert!(_ispowerof2(1));
    assert!(_ispowerof2(2));
    assert!(_ispowerof2(64));
    assert!(_ispowerof2(16384));
    assert!(_ispowerof2(0x8000_0000));
}

#[test]
fn ispowerof2_rejects_others() {
    assert!(!_ispowerof2(0));
    assert!(!_ispowerof2(3));
    assert!(!_ispowerof2(96));
    assert!(!_ispowerof2(u32::MAX));
}

#[test]
fn power2_in_range() {
    assert_eq!(_power2(1), 2);
    assert_eq!(_power2(5), 32);
    assert_eq!(_power2(14), 16384);
    assert_eq!(_power2(30), 0x4000_0000);
}

#[test]
fn power2_out_of_range_is_zero() {
    assert_eq!(_power2(0), 0);
    assert_eq!(_power2(31), 0);
    assert_eq!(_power2(40), 0);
}

#[test]
fn reversed_bits_table_of_eight() {
    let rbits = get_reversed_bits(3, 8);
    assert_eq!(rbits, vec![0, 4, 2, 6, 1, 5, 3, 7]);
}

#[test]
fn reversed_bits_table_is_involution() {
    let n: usize = 64;
    let rbits = get_reversed_bits(6, n);
    for i in 0..n {
        assert!(rbits[i] < n);
        assert_eq!(rbits[rbits[i]], i);
    }
}

#[test]
fn reversed_bits_partial_table() {
    // The table may be shorter than the full power of two.
    let rbits = get_reversed_bits(4, 3);
    assert_eq!(rbits, vec![0, 8, 4]);
}
