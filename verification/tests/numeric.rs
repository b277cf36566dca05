use revo::numeric::{le_key_bits, lt_bits, negate_bits};
use revo::sorting::sort_patterns;

fn probe_values() -> Vec<f32> {
    vec![
        0.0,
        -0.0,
        1.0,
        -1.0,
        0.5,
        -0.5,
        1.5e-42,
        -1.5e-42,
        3.4e38,
        -3.4e38,
        f32::INFINITY,
        f32::NEG_INFINITY,
        f32::NAN,
        2.0,
        -2.0,
        0.1,
        100.25,
        -100.25,
    ]
}

#[test]
fn strict_comparison_matches_host_semantics() {
    let vals = probe_values();
    for &a in &vals {
        for &b in &vals {
            assert_eq!(
                lt_bits(a.to_bits(), b.to_bits()),
                a < b,
                "comparison mismatch",
            );
        }
    }
}

#[test]
fn key_order_matches_total_order() {
    let vals = probe_values();
    for &a in &vals {
        for &b in &vals {
            assert_eq!(
                le_key_bits(a.to_bits(), b.to_bits()),
                a.total_cmp(&b) != std::cmp::Ordering::Greater,
                "total order mismatch",
            );
        }
    }
}

#[test]
fn negation_flips_the_sign() {
    for &a in &probe_values() {
        let n = f32::from_bits(negate_bits(a.to_bits()));
        assert_eq!(n.to_bits(), (-a).to_bits());
    }
}

#[test]
fn sorting_agrees_with_the_total_order() {
    let vals = probe_values();
    let bits: Vec<u32> = vals.iter().map(|v| v.to_bits()).collect();
    let sorted = sort_patterns(bits.clone());

    let mut expected: Vec<f32> = vals.clone();
    expected.sort_by(|a, b| a.total_cmp(b));
    let expected_bits: Vec<u32> = expected.iter().map(|v| v.to_bits()).collect();
    assert_eq!(sorted, expected_bits);
}
