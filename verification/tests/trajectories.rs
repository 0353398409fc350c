use num_bigint::BigUint;
use syracuse::{compute, optimum_syracuse, run, trajectory, Algorithm, EngineError, Run};

const ALL: [Algorithm; 5] = [
    Algorithm::Basic,
    Algorithm::Bitwise,
    Algorithm::Reduced,
    Algorithm::ReducedWhile,
    Algorithm::Optimum,
];

/// The counters of the plain map, computed without the library.
fn plain_counts(seed: u64) -> (u64, u64) {
    let mut n = seed as u128;
    let mut multiplies = 0;
    let mut divides = 0;
    while n != 1 {
        if n % 2 == 0 {
            n /= 2;
            divides += 1;
        } else {
            n = 3 * n + 1;
            multiplies += 1;
        }
    }
    (multiplies, divides)
}

fn check_range(from: u64, to: u64) {
    for seed in from..to {
        let expected = plain_counts(seed);
        let big = BigUint::from(seed);
        for algorithm in ALL {
            assert_eq!(trajectory(algorithm, &big), Ok(expected), "seed {seed}, {algorithm:?}");
        }
    }
}

/// A fixed number of `bits` bits, spread by a linear congruential generator.
fn scattered(bits: u64, mut state: u64) -> BigUint {
    let mut bytes = Vec::new();
    for _ in 0..(bits / 8) {
        state = state.wrapping_mul(6364136223846793005).wrapping_add(1442695040888963407);
        bytes.push((state >> 56) as u8);
    }
    bytes.push(1);
    BigUint::from_bytes_le(&bytes)
}

#[test]
fn seed_27_takes_111_steps() {
    let seed = BigUint::from(27u32);
    for algorithm in ALL {
        let (multiplies, divides) = trajectory(algorithm, &seed).unwrap();
        assert_eq!((multiplies, divides), (41, 70), "{algorithm:?}");
        assert_eq!(multiplies + divides, 111);
    }
}

#[test]
fn seed_one_ends_at_once() {
    let seed = BigUint::from(1u32);
    for algorithm in ALL {
        assert_eq!(trajectory(algorithm, &seed), Ok((0, 0)));
    }
}

#[test]
fn seed_zero_is_rejected() {
    let seed = BigUint::from(0u32);
    for algorithm in ALL {
        assert_eq!(trajectory(algorithm, &seed), Err(EngineError::InvalidSeed));
        assert_eq!(compute(&seed, algorithm, true), Err(EngineError::InvalidSeed));
        assert_eq!(algorithm.advance(&seed).err(), Some(EngineError::InvalidSeed));
        assert!(Run::start(algorithm, &seed).is_err());
    }
    assert_eq!(optimum_syracuse(&seed).err(), Some(EngineError::InvalidSeed));
    assert_eq!(run("optimum", &seed, true), Err(EngineError::InvalidSeed));
}

#[test]
fn powers_of_two_only_halve() {
    for exponent in [1u32, 2, 63, 64, 65, 1000] {
        let seed = BigUint::from(2u32).pow(exponent);
        for algorithm in ALL {
            assert_eq!(trajectory(algorithm, &seed), Ok((0, u64::from(exponent))));
        }
    }
}

#[test]
fn all_strategies_agree_up_to_2500() {
    check_range(1, 2500);
}

#[test]
fn all_strategies_agree_up_to_5000() {
    check_range(2500, 5000);
}

#[test]
fn all_strategies_agree_up_to_7500() {
    check_range(5000, 7500);
}

#[test]
fn all_strategies_agree_up_to_10000() {
    check_range(7500, 10001);
}

#[test]
fn all_strategies_agree_on_large_seeds() {
    for state in [1u64, 2, 3] {
        let seed = scattered(1200, state);
        assert!(seed.bits() > 1000);
        let reference = trajectory(Algorithm::Basic, &seed).unwrap();
        assert!(reference.0 > 0 && reference.1 > 1200);
        for algorithm in ALL {
            assert_eq!(trajectory(algorithm, &seed), Ok(reference), "{algorithm:?}");
        }
    }
}

#[test]
fn optimum_syracuse_counts_like_the_plain_map() {
    for seed in [1u64, 2, 3, 6, 7, 27, 97, 871, 6171, 837_799] {
        let (multiplies, divides, _) = optimum_syracuse(&BigUint::from(seed)).unwrap();
        assert_eq!((multiplies, divides), plain_counts(seed));
    }
}

#[test]
fn verbose_runs_report_the_counters() {
    let seed = BigUint::from(27u32);
    for algorithm in ALL {
        let record = compute(&seed, algorithm, true).unwrap();
        assert_eq!(record.multiply_count(), 41);
        assert_eq!(record.divide_count(), 70);
        assert_eq!(record.total_steps(), 111);
        assert_eq!(record.as_tuple().0, 41);
        assert_eq!(record.as_tuple().1, 70);
        assert_eq!(record.as_tuple().2, record.elapsed());
    }
}

#[test]
fn quiet_runs_report_zeros() {
    let seed = BigUint::from(27u32);
    for algorithm in ALL {
        let record = compute(&seed, algorithm, false).unwrap();
        assert_eq!(record.multiply_count(), 0);
        assert_eq!(record.divide_count(), 0);
        assert_eq!(record.elapsed().as_millis(), 0);
        assert!(record.elapsed().is_zero());
    }
}

#[test]
fn names_choose_the_strategy() {
    assert_eq!(Algorithm::from_name("optimum"), Algorithm::Optimum);
    assert_eq!(Algorithm::from_name("while"), Algorithm::ReducedWhile);
    assert_eq!(Algorithm::from_name("reduced"), Algorithm::Reduced);
    assert_eq!(Algorithm::from_name("bitwise"), Algorithm::Bitwise);
    assert_eq!(Algorithm::from_name("basic"), Algorithm::Basic);
}

#[test]
fn unknown_names_fall_back_to_basic() {
    for name in ["", "Optimum", "optimal", "optimum ", "fast"] {
        assert_eq!(Algorithm::from_name(name), Algorithm::Basic, "{name:?}");
    }
}

#[test]
fn run_by_name_counts_like_compute() {
    let seed = BigUint::from(6171u32);
    let expected = plain_counts(6171);
    for name in ["optimum", "while", "reduced", "bitwise", "", "nonsense"] {
        let record = run(name, &seed, true).unwrap();
        assert_eq!((record.multiply_count(), record.divide_count()), expected, "{name:?}");
    }
}
