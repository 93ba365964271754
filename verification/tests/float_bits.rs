use transit_net::float_bits::{from_index, lt, neg, ONE, ZERO};

fn samples() -> Vec<f64> {
    vec![
        0.0,
        -0.0,
        1.0,
        -1.0,
        0.5,
        -0.5,
        1e-300,
        -1e-300,
        5e-324,
        -5e-324,
        1e300,
        -1e300,
        f64::MAX,
        f64::MIN,
        f64::INFINITY,
        f64::NEG_INFINITY,
        f64::NAN,
        -f64::NAN,
        0.1 + 0.2,
        0.3,
    ]
}

#[test]
fn order_of_patterns_is_order_of_reals() {
    for a in samples() {
        for b in samples() {
            assert_eq!(lt(a.to_bits(), b.to_bits()), a < b, "{:?} < {:?}", a, b);
        }
    }
}

#[test]
fn negation_of_patterns_is_negation_of_reals() {
    for a in samples() {
        assert_eq!(neg(a.to_bits()), (-a).to_bits());
    }
}

#[test]
fn named_patterns() {
    assert_eq!(ZERO, 0.0f64.to_bits());
    assert_eq!(ONE, 1.0f64.to_bits());
}

#[test]
fn index_patterns_are_those_of_the_reals() {
    let mut values: Vec<usize> = vec![0, 1, 2, 3, 4, 5, 7, 8, 100, 255, 256, 1000, 65535, 1 << 20];
    for shift in 30..64usize {
        let p = 1usize << shift;
        for v in [p - 1, p, p + 1, p + (p >> 1), p + (p >> 1) + 1, p | 1, p | 3] {
            values.push(v);
        }
    }
    for d in 0..6usize {
        values.push((1usize << 53) + d);
        values.push((1usize << 54) + 2 * d);
        values.push((1usize << 54) + 2 * d + 1);
        values.push((1usize << 60) + (1 << 7) * d);
        values.push((1usize << 60) + (1 << 7) * d + 1);
        values.push((1usize << 60) + (1 << 7) * d - 1);
        values.push(usize::MAX - d);
    }
    for v in values {
        assert_eq!(from_index(v), (v as f64).to_bits(), "{}", v);
    }
}

#[test]
fn index_pattern_of_ten() {
    assert_eq!(from_index(10), 0x4024_0000_0000_0000);
}
