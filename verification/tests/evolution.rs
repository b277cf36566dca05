use rand_distr::{Distribution, Normal, Triangular};
use revo::creature::Creature;
use revo::draws::Draws;
use revo::evolution::{
    calc_error_sum, evolution_cycle, kill_weak_creatures, mutated_top_creatures,
    optimize_creature, Evolution, EvoError,
};

fn make_draws(n: usize) -> Draws {
    let mut rng = rand::rng();
    let tri_dist = Triangular::new(0.0f32, 2.0f32, 1.0f32).unwrap();
    let gauss_dist = Normal::new(0.0f32, 1.0f32).unwrap();
    let tri: Vec<u32> = (0..n).map(|_| tri_dist.sample(&mut rng).to_bits()).collect();
    let gauss: Vec<u32> = (0..n).map(|_| gauss_dist.sample(&mut rng).to_bits()).collect();
    Draws::new(tri, gauss)
}

fn row(vals: &[(usize, f32)]) -> Vec<(usize, u32)> {
    vals.iter().map(|&(p, v)| (p, v.to_bits())).collect()
}

// Parameter indices: 0 is the target, 1 and 2 are the inputs.
fn five_rows() -> Vec<Vec<(usize, u32)>> {
    vec![
        row(&[(0, 5.2), (1, 7.8), (2, 8.3)]),
        row(&[(0, 6.0), (1, 4.4), (2, 8.1)]),
        row(&[(0, 7.1), (1, 3.9), (2, 9.5)]),
        row(&[(0, 8.6), (1, 2.7), (2, 11.6)]),
        row(&[(0, 9.4), (1, -2.6), (2, 13.0)]),
    ]
}

#[test]
fn basic_evolution() {
    let data = five_rows();
    let mut draws = make_draws(262144);
    let evo = Evolution::new(0, &data, 10000, 10, 3, &mut draws).unwrap();
    assert_eq!(evo.num_creatures == 10000, true);
    let best = f32::from_bits(evo.best_creature.cached_error_sum.unwrap());
    assert!(best.is_finite());
    assert!(best >= 0.0);
    let prediction = f32::from_bits(evo.predict_point(&row(&[(1, 4.0), (2, 9.0)])));
    assert!(prediction.is_finite());
}

#[test]
fn parabola() {
    // A noisy parabola: the refined model's error never exceeds any
    // recorded champion's error.
    let mut data = Vec::new();
    let mut rng = rand::rng();
    let noise = Normal::new(0.0f32, 20.0f32).unwrap();
    for x in -20..=20 {
        let xf = x as f32;
        let y = xf * xf + noise.sample(&mut rng).abs();
        data.push(row(&[(0, y), (1, xf)]));
    }
    let mut draws = make_draws(65536);
    let model = Evolution::new(0, &data, 2000, 5, 3, &mut draws).unwrap();

    let best = f32::from_bits(model.best_creature.cached_error_sum.unwrap());
    for champion in &model.best_creatures {
        let ce = f32::from_bits(champion.cached_error_sum.unwrap());
        assert!(best.total_cmp(&ce) != std::cmp::Ordering::Greater);
    }
    for x in -20..=20 {
        let p = f32::from_bits(model.predict_point(&row(&[(1, x as f32)])));
        assert!(p.is_finite());
    }
}

#[test]
fn population_size_is_restored_each_cycle() {
    let data = five_rows();
    let mut draws = make_draws(16384);
    let opts: Vec<usize> = vec![1, 2];
    let mut creatures = Creature::create_many(250, &opts, 3, &mut draws);
    for i in 0u32..4 {
        let (next, champion) = evolution_cycle(
            creatures,
            &data,
            0,
            250,
            &opts,
            3,
            &mut draws,
            i + 1,
        );
        creatures = next;
        assert_eq!(creatures.len(), 250);
        assert!(champion.cached_error_sum.is_some());
    }
}

#[test]
fn refinement_never_worsens_the_error() {
    let data = five_rows();
    let mut draws = make_draws(16384);
    let opts: Vec<usize> = vec![1, 2];
    let mut creature = Creature::create_many(1, &opts, 3, &mut draws).pop().unwrap();
    let start = calc_error_sum(&creature, &data, 0);
    creature.cached_error_sum = Some(start);
    let (refined, _, _) = optimize_creature(&creature, &data, 0, 30, &mut draws);
    let start_f = f32::from_bits(start);
    let end_f = f32::from_bits(refined.cached_error_sum.unwrap());
    assert!(end_f.total_cmp(&start_f) != std::cmp::Ordering::Greater);
}

#[test]
fn mean_squared_error_matches_host_arithmetic() {
    let data = five_rows();
    let mut draws = make_draws(16384);
    let opts: Vec<usize> = vec![1, 2];
    let creature = Creature::create_many(1, &opts, 3, &mut draws).pop().unwrap();
    let got = f32::from_bits(calc_error_sum(&creature, &data, 0));

    let mut total = 0.0f32;
    for r in &data {
        let calc = f32::from_bits(creature.calculate(r));
        let target = r
            .iter()
            .find(|&&(p, _)| p == 0)
            .map(|&(_, v)| f32::from_bits(v))
            .unwrap();
        let diff = calc - target;
        total += diff * diff;
    }
    let expected = total / (data.len() as f32);
    assert_eq!(got.to_bits(), expected.to_bits());
}

#[test]
fn zero_population_is_a_configuration_error() {
    let data = five_rows();
    let mut draws = make_draws(64);
    match Evolution::new(0, &data, 0, 10, 3, &mut draws) {
        Err(e) => assert_eq!(e, EvoError::Configuration),
        Ok(_) => panic!("expected a configuration error"),
    }
}

#[test]
fn zero_cycles_is_a_configuration_error() {
    let data = five_rows();
    let mut draws = make_draws(64);
    match Evolution::new(0, &data, 100, 0, 3, &mut draws) {
        Err(e) => assert_eq!(e, EvoError::Configuration),
        Ok(_) => panic!("expected a configuration error"),
    }
}

#[test]
fn empty_data_is_a_configuration_error() {
    let data: Vec<Vec<(usize, u32)>> = Vec::new();
    let mut draws = make_draws(64);
    match Evolution::new(0, &data, 100, 10, 3, &mut draws) {
        Err(e) => assert_eq!(e, EvoError::Configuration),
        Ok(_) => panic!("expected a configuration error"),
    }
}

#[test]
fn a_row_without_the_target_is_a_data_error() {
    let mut data = five_rows();
    data.push(row(&[(1, 1.0), (2, 2.0)]));
    let mut draws = make_draws(64);
    match Evolution::new(0, &data, 100, 10, 3, &mut draws) {
        Err(e) => assert_eq!(e, EvoError::DataContractViolation),
        Ok(_) => panic!("expected a data contract error"),
    }
}

#[test]
fn the_champion_has_the_least_error() {
    let data = five_rows();
    let mut draws = make_draws(16384);
    let opts: Vec<usize> = vec![1, 2];
    let creatures = Creature::create_many(50, &opts, 3, &mut draws);

    // Freshly built creatures carry no cache, so the cycle will score each
    // one with its deterministic mean squared error; the champion must
    // hold the least of those in the IEEE total order.
    let mut expected: Option<f32> = None;
    for c in &creatures {
        let e = f32::from_bits(calc_error_sum(c, &data, 0));
        expected = Some(match expected {
            None => e,
            Some(best) => {
                if e.total_cmp(&best) == std::cmp::Ordering::Less {
                    e
                } else {
                    best
                }
            }
        });
    }

    let (_, champion) = evolution_cycle(creatures, &data, 0, 50, &opts, 3, &mut draws, 1);
    let got = f32::from_bits(champion.cached_error_sum.unwrap());
    assert_eq!(got.to_bits(), expected.unwrap().to_bits());
}

#[test]
fn culling_returns_the_filtered_subsequence_in_order() {
    let data = five_rows();
    let mut draws = make_draws(16384);
    let opts: Vec<usize> = vec![1, 2];
    let mut creatures = Creature::create_many(40, &opts, 3, &mut draws);
    for c in creatures.iter_mut() {
        c.cached_error_sum = Some(calc_error_sum(c, &data, 0));
    }
    let median = 1.0f32.to_bits();
    let expected: Vec<u32> = creatures
        .iter()
        .filter(|c| f32::from_bits(c.cached_error_sum.unwrap()) < 1.0)
        .map(|c| c.cached_error_sum.unwrap())
        .collect();
    let kept = kill_weak_creatures(creatures, median);
    let got: Vec<u32> = kept.iter().map(|c| c.cached_error_sum.unwrap()).collect();
    assert_eq!(got, expected);
}

#[test]
fn breeding_yields_one_mutant_per_qualifying_creature() {
    let data = five_rows();
    let mut draws = make_draws(16384);
    let opts: Vec<usize> = vec![1, 2];
    let mut creatures = Creature::create_many(40, &opts, 3, &mut draws);
    for c in creatures.iter_mut() {
        c.cached_error_sum = Some(calc_error_sum(c, &data, 0));
    }
    let min_error = 0.25f32.to_bits();
    let median_error = 4.0f32.to_bits();
    let cutoff = (0.25f32 + 4.0f32) / 2.0f32;
    let qualifying: Vec<u32> = creatures
        .iter()
        .filter(|c| f32::from_bits(c.cached_error_sum.unwrap()) < cutoff)
        .map(|c| c.generation)
        .collect();
    let mutants = mutated_top_creatures(&creatures, min_error, median_error, &mut draws, 1);
    assert_eq!(mutants.len(), qualifying.len());
    for (m, parent_gen) in mutants.iter().zip(qualifying.iter()) {
        assert_eq!(m.cached_error_sum, None);
        assert_eq!(m.generation, parent_gen + 1);
    }
}
