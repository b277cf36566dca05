use revo::standardize::Standardizer;

fn row(vals: &[(usize, f32)]) -> Vec<(usize, u32)> {
    vals.iter().map(|&(p, v)| (p, v.to_bits())).collect()
}

fn sample_rows() -> Vec<Vec<(usize, u32)>> {
    vec![
        row(&[(0, 5.2), (1, 7.8), (2, 8.3)]),
        row(&[(0, 6.0), (1, 4.4), (2, 8.1)]),
        row(&[(0, 7.1), (1, 3.9), (2, 9.5)]),
        row(&[(0, 8.6), (1, 2.7), (2, 11.6)]),
        row(&[(0, 9.4), (1, -2.6), (2, 13.0)]),
    ]
}

#[test]
fn standardize_then_destandardize_recovers_the_value() {
    let data = sample_rows();
    let standardizer = Standardizer::new(&data);
    for r in &data {
        let standardized = standardizer.standardized_value(r);
        for (&(p, original), &(sp, transformed)) in r.iter().zip(standardized.iter()) {
            assert_eq!(p, sp);
            let back =
                f32::from_bits(standardizer.unstandardize_value(p, transformed));
            let orig = f32::from_bits(original);
            assert!(
                (back - orig).abs() <= 1e-3 * orig.abs().max(1.0),
                "round trip drifted",
            );
        }
    }
}

#[test]
fn a_constant_parameter_round_trips_exactly() {
    // Zero variance leaves the scale at zero, so the transform is a pure
    // shift and its inverse recovers the value.
    let data = vec![
        row(&[(0, 3.5), (1, 4.25)]),
        row(&[(0, 3.5), (1, 6.25)]),
        row(&[(0, 3.5), (1, 8.0)]),
    ];
    let standardizer = Standardizer::new(&data);
    let standardized = standardizer.standardized_value(&data[0]);
    let (_, transformed) = standardized[0];
    assert_eq!(f32::from_bits(transformed), 0.0);
    let back = standardizer.unstandardize_value(0, transformed);
    assert_eq!(f32::from_bits(back), 3.5);
}

#[test]
fn standardized_rows_keep_their_shape() {
    let data = sample_rows();
    let standardizer = Standardizer::new(&data);
    let out = standardizer.standardized_values(&data);
    assert_eq!(out.len(), data.len());
    for (orig, std_row) in data.iter().zip(out.iter()) {
        assert_eq!(orig.len(), std_row.len());
        for (&(p, _), &(sp, _)) in orig.iter().zip(std_row.iter()) {
            assert_eq!(p, sp);
        }
    }
}

#[test]
fn standardized_values_are_centered() {
    // The standardized column of each parameter has mean near zero and
    // spread near one.
    let data = sample_rows();
    let standardizer = Standardizer::new(&data);
    let out = standardizer.standardized_values(&data);
    for p in 0..3usize {
        let col: Vec<f32> = out
            .iter()
            .map(|r| {
                f32::from_bits(r.iter().find(|&&(q, _)| q == p).unwrap().1)
            })
            .collect();
        let mean: f32 = col.iter().sum::<f32>() / col.len() as f32;
        let var: f32 =
            col.iter().map(|v| (v - mean) * (v - mean)).sum::<f32>() / col.len() as f32;
        assert!(mean.abs() < 1e-3);
        assert!((var - 1.0).abs() < 1e-2);
    }
}
