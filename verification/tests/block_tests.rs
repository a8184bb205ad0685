use nakamoto_net_poll::block::{locators_indexes, target_from_bits_parts};

#[test]
fn locators_from_genesis() {
    assert_eq!(locators_indexes(0), vec![0]);
}

#[test]
fn locators_dense_run() {
    assert_eq!(locators_indexes(8), vec![8, 7, 6, 5, 4, 3, 2, 1, 0]);
}

#[test]
fn locators_exponential_backoff() {
    assert_eq!(
        locators_indexes(99),
        vec![99, 98, 97, 96, 95, 94, 93, 92, 91, 89, 85, 77, 61, 29, 0]
    );
}

#[test]
fn locators_always_end_at_genesis() {
    let v = locators_indexes(1_000_000);
    assert_eq!(v[0], 1_000_000);
    assert_eq!(*v.last().unwrap(), 0);
    for w in v.windows(2) {
        assert!(w[0] > w[1]);
    }
}

#[test]
fn target_parts_mainnet_limit() {
    // 0x1d00ffff: exponent byte 0x1d, mantissa 0x00ffff.
    assert_eq!(target_from_bits_parts(0x1d00ffff), Some((0xffff, 8 * (0x1d - 3))));
}

#[test]
fn target_parts_negative_mantissa_is_zero() {
    assert_eq!(target_from_bits_parts(0x1d800000), None);
}

#[test]
fn target_parts_small_exponent_shifts_mantissa() {
    // Exponent byte 1: the mantissa is shifted right by two bytes.
    assert_eq!(target_from_bits_parts(0x01123456), Some((0x12, 0)));
    // Exponent byte 3: the mantissa stands as it is.
    assert_eq!(target_from_bits_parts(0x03123456), Some((0x123456, 0)));
}
