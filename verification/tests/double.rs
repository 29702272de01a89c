use stormstorage::double::{quotient, ratio, round_even, whole};

#[test]
fn ratio_is_the_double_quotient() {
    let mut x: u64 = 0x9E37_79B9_7F4A_7C15;
    for i in 0..20000u32 {
        x ^= x << 13;
        x ^= x >> 7;
        x ^= x << 17;
        let a = x >> (i % 64);
        x ^= x << 13;
        x ^= x >> 7;
        x ^= x << 17;
        let b = x >> ((i / 64) % 64);
        if b == 0 {
            assert_eq!(ratio(a, b), 0);
        } else {
            assert_eq!(ratio(a, b), (a as f64 / b as f64).to_bits(), "{a}/{b}");
        }
    }
}

#[test]
fn ratio_at_the_edges() {
    for a in [0, 1, 2, 3, (1 << 53) - 1, 1 << 53, (1 << 53) + 1, u64::MAX - 1, u64::MAX] {
        for b in [1, 2, 3, 10, (1 << 53) - 1, 1 << 53, (1 << 53) + 1, u64::MAX - 1, u64::MAX] {
            assert_eq!(ratio(a, b), (a as f64 / b as f64).to_bits(), "{a}/{b}");
        }
    }
    assert_eq!(ratio(5, 0), 0, "nothing to divide by");
    assert_eq!(ratio(1, 10), 0.1f64.to_bits());
}

#[test]
fn whole_rounds_to_53_bits_and_ties_to_even() {
    assert_eq!(whole(0), 0);
    assert_eq!(whole(1), 1);
    assert_eq!(whole((1 << 53) + 1), 1 << 53);
    assert_eq!(whole((1 << 53) + 3), (1 << 53) + 4);
    assert_eq!(whole(u64::MAX), 1 << 64);
    for n in [7, 1 << 40, (1 << 60) + 12345, u64::MAX - 2000] {
        assert_eq!(whole(n), (n as f64) as u128);
    }
}

#[test]
fn quotients_of_whole_doubles() {
    assert_eq!(quotient(1, 2), 0.5f64.to_bits());
    assert_eq!(quotient(0, 3), 0);
    assert_eq!(quotient(1 << 64, 1), 18446744073709551616f64.to_bits());
    assert_eq!(quotient(1, 1 << 64), (1.0f64 / 18446744073709551616f64).to_bits());
}

#[test]
fn rounding_ties_go_to_even() {
    assert_eq!(round_even(5, 10), 0);
    assert_eq!(round_even(15, 10), 2);
    assert_eq!(round_even(25, 10), 2);
    assert_eq!(round_even(26, 10), 3);
}
