use rand_distr::{Distribution, Normal, Triangular};
use revo::creature::{Coefficients, Creature, LayerModifiers, MutateSpeed, num_layers};
use revo::draws::Draws;
use revo::numeric::{F_ONE, F_TWO, F_ZERO, PLATEAU_RATIO, SD_BIAS, SD_FAST, SD_FINE};

fn make_draws(n: usize) -> Draws {
    let mut rng = rand::rng();
    let tri_dist = Triangular::new(0.0f32, 2.0f32, 1.0f32).unwrap();
    let gauss_dist = Normal::new(0.0f32, 1.0f32).unwrap();
    let tri: Vec<u32> = (0..n).map(|_| tri_dist.sample(&mut rng).to_bits()).collect();
    let gauss: Vec<u32> = (0..n).map(|_| gauss_dist.sample(&mut rng).to_bits()).collect();
    Draws::new(tri, gauss)
}

#[test]
fn pattern_constants_match_their_values() {
    assert_eq!(F_ZERO, 0.0f32.to_bits());
    assert_eq!(F_ONE, 1.0f32.to_bits());
    assert_eq!(F_TWO, 2.0f32.to_bits());
    assert_eq!(SD_BIAS, 0.1f32.to_bits());
    assert_eq!(SD_FINE, 0.005f32.to_bits());
    assert_eq!(SD_FAST, 0.05f32.to_bits());
    assert_eq!(PLATEAU_RATIO, 0.9999f32.to_bits());
}

#[test]
fn creature_creation() {
    let param_options: Vec<usize> = vec![0, 1, 2];
    let mut draws = make_draws(4096);
    let creature = Creature::new(&param_options, 3, &mut draws);

    assert_eq!(creature.num_layers() >= 1 && creature.num_layers() <= 3, true);

    // The first layer may legally reference no parameters at all; find a
    // creature whose first layer has a term so the term can be inspected.
    let mut subject = creature;
    let mut tries: u32 = 0;
    while subject.equation[0].modifiers.is_empty() && tries < 200 {
        subject = Creature::new(&param_options, 3, &mut draws);
        tries += 1;
    }
    let test_coeff = &subject.equation[0].modifiers[0].1;
    let c = f32::from_bits(test_coeff.c);
    let b = f32::from_bits(test_coeff.b);
    assert_eq!((c.abs() + b.abs()) > 0.0, true);

    let input_data: Vec<(usize, u32)> =
        vec![(0, 2.1245f32.to_bits()), (1, 0.52412f32.to_bits())];

    let mut creatures = Vec::new();
    for _ in 0..15 {
        creatures.push(Creature::new(&param_options, 3, &mut draws));
    }

    let mut total = 0.0f32;
    for cr in creatures {
        let result = f32::from_bits(cr.calculate(&input_data));
        total += result;
    }
    assert_eq!(total != 0.0, true);
}

#[test]
fn generate_many_creatures() {
    let param_options: Vec<usize> = vec![0, 1, 2];
    let mut draws = make_draws(65536);

    let single = Creature::create_many(100000, &param_options, 3, &mut draws);
    let multi = Creature::create_many_parallel(100000, &param_options, 3, &mut draws);
    assert_eq!(single.len(), 100000);
    assert_eq!(multi.len(), 100000);
}

#[test]
fn check_mutation() {
    let param_options: Vec<usize> = vec![0, 1, 2];
    let mut draws = make_draws(4096);
    let creature = Creature::new(&param_options, 3, &mut draws);
    let parent_bias = f32::from_bits(creature.equation[0].layer_bias);

    // Each mutation perturbs the bias with probability one half; among many
    // mutants some must carry a bias different from the parent's.
    let mut moved = false;
    for _ in 0..100 {
        let mutant = creature.mutate(MutateSpeed::Fast, &mut draws);
        if f32::from_bits(mutant.equation[0].layer_bias) != parent_bias {
            moved = true;
            break;
        }
    }
    assert_eq!(moved, true);
}

#[test]
fn num_layer_bounds() {
    let layers: Vec<u8> = (0..10000).map(|_| num_layers()).collect();
    assert_eq!(*layers.iter().min().unwrap(), 1 as u8);
    assert_eq!(*layers.iter().max().unwrap(), 3 as u8);
}

#[test]
fn lib_num_layer_bounds() {
    let layers: Vec<u8> = (0..100).map(|_| num_layers()).collect();
    assert_eq!(*layers.iter().min().unwrap(), 1 as u8);
    assert_eq!(*layers.iter().max().unwrap(), 3 as u8);
}

#[test]
fn exponents_stay_in_range() {
    let param_options: Vec<usize> = vec![0, 1, 2, 3];
    let mut draws = make_draws(4096);
    for _ in 0..200 {
        let cr = Creature::new(&param_options, 3, &mut draws);
        for layer in &cr.equation {
            for (_, cf) in layer.modifiers.iter() {
                assert!(cf.x >= 1 && cf.x <= 3);
            }
            if let Some(cf) = &layer.previous_layer_coefficients {
                assert!(cf.x >= 1 && cf.x <= 3);
            }
        }
    }
}

#[test]
fn layer_counts_respect_the_cap() {
    let param_options: Vec<usize> = vec![0, 1];
    let mut draws = make_draws(4096);
    for cap in 1u8..=3 {
        for _ in 0..100 {
            let cr = Creature::new(&param_options, cap, &mut draws);
            assert!(cr.num_layers() >= 1);
            assert!(cr.num_layers() <= cap as usize);
        }
    }
}

#[test]
fn mutation_preserves_structure() {
    let param_options: Vec<usize> = vec![0, 1, 2];
    let mut draws = make_draws(4096);
    let mut parent = Creature::new(&param_options, 3, &mut draws);
    parent.cached_error_sum = Some(1.5f32.to_bits());

    let mutant = parent.mutate(MutateSpeed::Fine, &mut draws);
    assert_eq!(mutant.generation, parent.generation + 1);
    assert_eq!(mutant.cached_error_sum, None);
    assert_eq!(mutant.equation.len(), parent.equation.len());
    for (pl, ml) in parent.equation.iter().zip(mutant.equation.iter()) {
        assert_eq!(pl.modifiers.len(), ml.modifiers.len());
        for ((pi, pc), (mi, mc)) in pl.modifiers.iter().zip(ml.modifiers.iter()) {
            assert_eq!(pi, mi);
            assert!(mc.x >= 1);
            assert!(mc.x as i32 - pc.x as i32 <= 1);
            assert!(pc.x as i32 - mc.x as i32 <= 1);
        }
        assert_eq!(
            pl.previous_layer_coefficients.is_some(),
            ml.previous_layer_coefficients.is_some()
        );
    }
}

#[test]
fn evaluation_is_pure() {
    let param_options: Vec<usize> = vec![0, 1, 2];
    let mut draws = make_draws(4096);
    let cr = Creature::new(&param_options, 3, &mut draws);
    let row: Vec<(usize, u32)> = vec![(0, 1.25f32.to_bits()), (2, (-3.5f32).to_bits())];
    let first = cr.calculate(&row);
    let second = cr.calculate(&row);
    assert_eq!(first, second);
}

#[test]
fn term_evaluation_matches_host_arithmetic() {
    let samples = [
        (1.5f32, -0.25f32, 0.75f32, 1u8, 2.0f32),
        (-0.625f32, 3.5f32, -1.0f32, 2u8, 0.3f32),
        (0.1f32, 0.2f32, 0.3f32, 3u8, -41.75f32),
    ];
    for &(c, b, z, x, v) in samples.iter() {
        let cf = Coefficients { c: c.to_bits(), b: b.to_bits(), z: z.to_bits(), x };
        let got = f32::from_bits(cf.calculate(v.to_bits()));
        let mut base = b * v + z;
        let mut acc = base;
        for _ in 1..x {
            acc *= base;
        }
        base = c * acc;
        assert_eq!(got.to_bits(), base.to_bits());
    }
}

#[test]
fn unknown_parameters_are_ignored() {
    let param_options: Vec<usize> = vec![0];
    let mut draws = make_draws(4096);
    let cr = Creature::new(&param_options, 3, &mut draws);
    let row: Vec<(usize, u32)> = vec![(0, 1.5f32.to_bits())];
    let row_extra: Vec<(usize, u32)> =
        vec![(0, 1.5f32.to_bits()), (77, 9.0f32.to_bits())];
    assert_eq!(cr.calculate(&row), cr.calculate(&row_extra));
}

#[test]
fn mutation_noise_is_scaled_buffer_noise() {
    let param_options: Vec<usize> = vec![0, 1, 2];
    let mut draws = make_draws(4096);
    let parent = Creature::new(&param_options, 3, &mut draws);

    // With a one-sample Gaussian buffer every noise draw is that sample,
    // so each weight must move by exactly the sample scaled by the speed's
    // spread, and each bias either stays or moves the same way.
    let mut noise = Draws::new(Vec::new(), vec![1.0f32.to_bits()]);
    let mutant = parent.mutate(MutateSpeed::Fast, &mut noise);
    let shift = |v: u32| (f32::from_bits(v) + 1.0f32 * 0.05f32).to_bits();
    for (pl, ml) in parent.equation.iter().zip(mutant.equation.iter()) {
        for ((_, pc), (_, mc)) in pl.modifiers.iter().zip(ml.modifiers.iter()) {
            assert_eq!(mc.c, shift(pc.c));
            assert_eq!(mc.b, shift(pc.b));
            assert_eq!(mc.z, shift(pc.z));
        }
        if let (Some(pc), Some(mc)) =
            (&pl.previous_layer_coefficients, &ml.previous_layer_coefficients)
        {
            assert_eq!(mc.c, shift(pc.c));
            assert_eq!(mc.b, shift(pc.b));
            assert_eq!(mc.z, shift(pc.z));
        }
        assert!(ml.layer_bias == pl.layer_bias || ml.layer_bias == shift(pl.layer_bias));
    }
}

#[test]
fn each_layer_sums_from_zero() {
    // A hand-built two-layer creature: the second layer sees the first
    // layer's output only through its weighted carry-over term, never the
    // first layer's raw parameter sum.
    let term = |c: f32, b: f32, z: f32, x: u8| Coefficients {
        c: c.to_bits(),
        b: b.to_bits(),
        z: z.to_bits(),
        x,
    };
    let first = LayerModifiers {
        modifiers: vec![(0, term(2.0, 1.0, 0.0, 1))],
        previous_layer_coefficients: None,
        layer_bias: 1.0f32.to_bits(),
    };
    let second = LayerModifiers {
        modifiers: vec![(0, term(1.0, 1.0, 0.0, 1))],
        previous_layer_coefficients: Some(term(3.0, 1.0, 0.0, 1)),
        layer_bias: 0.5f32.to_bits(),
    };
    let cr = Creature {
        equation: vec![first, second],
        cached_error_sum: None,
        generation: 1,
    };
    let out = f32::from_bits(cr.calculate(&vec![(0usize, 4.0f32.to_bits())]));
    // First layer: 2 * 4 + 1 = 9.  Second: 1 * 4 + 3 * 9 + 0.5 = 31.5;
    // under a carried-over inner sum it would instead be 39.5.
    assert_eq!(out, 31.5);
}
