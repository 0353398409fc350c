use num_bigint::BigUint;
use syracuse::{
    first_revisit, incremental, Algorithm, Descent, EngineError, MinimumTracker, Progress, Run,
};

fn big(n: u64) -> BigUint {
    BigUint::from(n)
}

fn advance(algorithm: Algorithm, n: u64) -> (BigUint, u64, u64) {
    let advanced = algorithm.advance(&big(n)).unwrap();
    (advanced.value, advanced.multiplies, advanced.divides)
}

#[test]
fn basic_and_bitwise_take_one_step() {
    for algorithm in [Algorithm::Basic, Algorithm::Bitwise] {
        assert_eq!(advance(algorithm, 6), (big(3), 0, 1));
        assert_eq!(advance(algorithm, 27), (big(82), 1, 0));
        assert_eq!(advance(algorithm, 1), (big(4), 1, 0));
        assert_eq!(advance(algorithm, 2), (big(1), 0, 1));
    }
}

#[test]
fn reduced_fuses_the_odd_step() {
    assert_eq!(advance(Algorithm::Reduced, 27), (big(41), 1, 1));
    assert_eq!(advance(Algorithm::Reduced, 6), (big(3), 0, 1));
    assert_eq!(advance(Algorithm::Reduced, 1), (big(2), 1, 1));
}

#[test]
fn reduced_while_drains_both_runs() {
    // 27, 82, 41, 124, 62, 31
    assert_eq!(advance(Algorithm::ReducedWhile, 27), (big(31), 2, 3));
    // 7, 22, 11, 34, 17, 52, 26, 13
    assert_eq!(advance(Algorithm::ReducedWhile, 7), (big(13), 3, 4));
    assert_eq!(advance(Algorithm::ReducedWhile, 48), (big(3), 0, 4));
    assert_eq!(advance(Algorithm::ReducedWhile, 1), (big(1), 1, 2));
}

#[test]
fn optimum_shifts_all_zeros_at_once() {
    assert_eq!(advance(Algorithm::Optimum, 48), (big(3), 0, 4));
    assert_eq!(advance(Algorithm::Optimum, 27), (big(41), 1, 1));
    // 5, 16, 8, 4, 2, 1
    assert_eq!(advance(Algorithm::Optimum, 5), (big(1), 1, 4));
    assert_eq!(advance(Algorithm::Optimum, 1), (big(1), 1, 2));
}

#[test]
fn optimum_shifts_across_machine_words() {
    let seed = BigUint::from(3u32) << 200u32;
    let advanced = Algorithm::Optimum.advance(&seed).unwrap();
    assert_eq!((advanced.value, advanced.multiplies, advanced.divides), (big(3), 0, 200));
}

#[test]
fn counters_never_decrease_during_a_run() {
    for algorithm in [
        Algorithm::Basic,
        Algorithm::Bitwise,
        Algorithm::Reduced,
        Algorithm::ReducedWhile,
        Algorithm::Optimum,
    ] {
        let mut run = Run::start(algorithm, &big(27)).unwrap();
        assert_eq!(run.algorithm(), algorithm);
        assert_eq!((run.multiply_count(), run.divide_count()), (0, 0));
        let mut iterations = 0;
        while !run.is_done() {
            let before = (run.multiply_count(), run.divide_count());
            run.step().unwrap();
            assert!(run.multiply_count() >= before.0);
            assert!(run.divide_count() >= before.1);
            assert!(run.multiply_count() + run.divide_count() > before.0 + before.1);
            iterations += 1;
        }
        assert!(iterations <= 111);
        assert_eq!(*run.value(), big(1));
        assert_eq!((run.multiply_count(), run.divide_count()), (41, 70));
    }
}

#[test]
fn a_finished_run_stays_as_it_is() {
    let mut run = Run::start(Algorithm::Optimum, &big(8)).unwrap();
    run.step().unwrap();
    assert!(run.is_done());
    assert_eq!((run.multiply_count(), run.divide_count()), (0, 3));
    run.step().unwrap();
    assert!(run.is_done());
    assert_eq!((run.multiply_count(), run.divide_count()), (0, 3));
}

#[test]
fn a_run_visits_the_values_of_the_plain_map() {
    let mut plain = vec![27u64];
    while *plain.last().unwrap() != 1 {
        let n = *plain.last().unwrap();
        plain.push(if n % 2 == 0 { n / 2 } else { 3 * n + 1 });
    }
    for algorithm in [Algorithm::Reduced, Algorithm::ReducedWhile, Algorithm::Optimum] {
        let mut run = Run::start(algorithm, &big(27)).unwrap();
        while !run.is_done() {
            run.step().unwrap();
            let at = (run.multiply_count() + run.divide_count()) as usize;
            assert_eq!(*run.value(), big(plain[at]), "{algorithm:?} after {at} steps");
        }
    }
}

#[test]
fn the_tracker_remembers_the_minimum() {
    let mut tracker = MinimumTracker::new(&big(10));
    assert!(!tracker.observe(&big(12)));
    assert!(!tracker.observe(&big(7)));
    assert!(!tracker.observe(&big(9)));
    assert!(!tracker.observe(&big(10)));
    assert!(tracker.observe(&big(7)));
    assert!(!tracker.observe(&big(3)));
    assert!(!tracker.observe(&big(7)));
    assert!(tracker.observe(&big(3)));
}

#[test]
fn the_tracker_catches_a_return_to_the_seed() {
    let mut tracker = MinimumTracker::new(&big(5));
    assert!(!tracker.observe(&big(8)));
    assert!(tracker.observe(&big(5)));
}

/// The odd values that the map "halve, or else 3n - 1" passes through.
fn odd_values_of_3n_minus_1(seed: u64, count: usize) -> Vec<BigUint> {
    let mut values = Vec::new();
    let mut n = seed;
    while values.len() < count {
        n = 3 * n - 1;
        while n % 2 == 0 {
            n /= 2;
        }
        values.push(big(n));
    }
    values
}

#[test]
fn a_map_that_cycles_is_caught() {
    // 5 -> 14 -> 7 -> 20 -> 10 -> 5 under 3n - 1.
    let values = odd_values_of_3n_minus_1(5, 50);
    assert_eq!(values[0], big(7));
    assert_eq!(values[1], big(5));
    assert_eq!(first_revisit(&big(5), &values), Some(1));
    // 17 -> 50 -> 25 -> 74 -> 37 -> ... -> 17, a cycle of 18 values.
    let values = odd_values_of_3n_minus_1(17, 50);
    assert_eq!(first_revisit(&big(17), &values), Some(6));
    assert_eq!(values[6], big(17));
}

#[test]
fn a_cycle_above_the_minimum_is_not_caught() {
    // 9 falls to 5 under 3n - 1 and then circles through 7 and 5.
    let values = odd_values_of_3n_minus_1(9, 6);
    assert_eq!(values, vec![big(13), big(19), big(7), big(5), big(7), big(5)]);
    assert_eq!(first_revisit(&big(9), &values), Some(5));
    assert_eq!(first_revisit(&big(9), &values[..5].to_vec()), None);
}

#[test]
fn a_falling_sequence_is_not_caught() {
    let values = vec![big(41), big(31), big(47), big(27), big(5), big(1)];
    assert_eq!(first_revisit(&big(27), &values), Some(3));
    assert_eq!(first_revisit(&big(97), &values), None);
    assert_eq!(first_revisit(&big(97), &Vec::new()), None);
}

#[test]
fn errors_have_messages() {
    assert_eq!(EngineError::InvalidSeed.message(), "the map is not defined on zero");
    assert_eq!(
        EngineError::CycleDetected.message(),
        "-------------- Loop found ! -----------------"
    );
    assert_eq!(EngineError::CounterOverflow.message(), "the step counters are exhausted");
}

#[test]
fn a_search_below_the_bound_is_settled_at_once() {
    for seed in [0u64, 1, 27, u64::MAX] {
        let mut search = Descent::start(&big(seed));
        assert_eq!(search.progress(), Progress::Settled);
        assert_eq!(search.advance(), Progress::Settled);
        assert_eq!(*search.seed(), big(seed));
    }
}

#[test]
fn a_search_from_the_bound_on_is_pending() {
    let seed = (BigUint::from(1u32) << 64u32) + 3u32;
    let mut search = Descent::start(&seed);
    assert_eq!(search.progress(), Progress::Pending);
    // 2^64 + 3 is odd; its first landing, 3 * 2^63 + 5, is odd and larger.
    assert_eq!(search.advance(), Progress::Pending);
    // The second landing is 9 * 2^59 + 1, which is below the seed.
    assert_eq!(search.advance(), Progress::Settled);
    assert_eq!(search.progress(), Progress::Settled);
    assert_eq!(search.advance(), Progress::Settled);
    assert_eq!(*search.seed(), seed);
}

#[test]
fn an_even_seed_is_settled_by_its_odd_part() {
    let seed = BigUint::from(3u32) << 64u32;
    let mut search = Descent::start(&seed);
    assert_eq!(search.progress(), Progress::Pending);
    assert_eq!(search.advance(), Progress::Settled);
}

#[test]
fn small_seeds_are_settled() {
    assert!(incremental(&big(0)));
    assert!(incremental(&big(1)));
    assert!(incremental(&big(27)));
    assert!(incremental(&big(u64::MAX)));
}

#[test]
fn large_seeds_fall_below_themselves() {
    let base = BigUint::from(1u32) << 64u32;
    assert!(incremental(&base));
    for offset in [1u32, 2, 3, 27, 255] {
        assert!(incremental(&(&base + offset)), "2^64 + {offset}");
    }
    assert!(incremental(&((BigUint::from(1u32) << 1000u32) - 1u32)));
}
