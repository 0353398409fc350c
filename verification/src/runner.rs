//! The entry points: a strategy chosen by name or by value, run on a seed,
//! timed, and reported as a record; and the search for a value below the
//! seed, which settles a seed without following it down to 1.

use crate::algorithm::{leap, lemma_leap_on_orbit, Algorithm, EngineError};
use crate::clock::{elapsed_since, millis_of, now, span_of_millis};
use crate::engine::{outcome, trajectory, Counts};
use crate::natural::{duplicate, less, one, shift_left, value_of};
use crate::orbit::{drops_within, lemma_orbit_positive, lemma_orbit_split, orbit};
use crate::report::TrajectoryResult;
use num_bigint::BigUint;
use std::time::Duration;
use vstd::arithmetic::power2::{lemma_pow2_pos, pow2};
use vstd::prelude::*;

verus! {

/// `str == str`: true exactly when both hold the same characters.
#[verifier::external_body]
fn same_text(a: &str, b: &str) -> (r: bool)
    ensures
        r == (a@ == b@),
{
    a == b
}

/// The strategy that a name stands for. A name that stands for none stands
/// for `Basic`.
pub open spec fn named(name: Seq<char>) -> Algorithm {
    if name == "optimum"@ {
        Algorithm::Optimum
    } else if name == "while"@ {
        Algorithm::ReducedWhile
    } else if name == "reduced"@ {
        Algorithm::Reduced
    } else if name == "bitwise"@ {
        Algorithm::Bitwise
    } else {
        Algorithm::Basic
    }
}

/// What a run reports when it ends well: the counters of [`outcome`] when it
/// was asked to count, and zeros with no time otherwise. A run that does not
/// end well reports its error either way.
pub open spec fn reported(
    algorithm: Algorithm,
    n: nat,
    verbose: bool,
    r: Result<TrajectoryResult, EngineError>,
) -> bool {
    match r {
        Ok(record) => {
            &&& outcome(algorithm, n) is Ok
            &&& verbose ==> outcome(algorithm, n) == Ok::<Counts, EngineError>(
                Counts {
                    multiplies: record.multiplies() as nat,
                    divides: record.divides() as nat,
                },
            )
            &&& !verbose ==> record.multiplies() == 0 && record.divides() == 0 && millis_of(
                record.span(),
            ) == 0
        },
        Err(e) => outcome(algorithm, n) == Err::<Counts, EngineError>(e),
    }
}

impl Algorithm {
    /// The strategy called `name`: `"optimum"`, `"while"`, `"reduced"` and
    /// `"bitwise"` name theirs, and every other name falls back to `Basic`.
    pub fn from_name(name: &str) -> (r: Algorithm)
        ensures
            r == named(name@),
    {
        if same_text(name, "optimum") {
            Algorithm::Optimum
        } else if same_text(name, "while") {
            Algorithm::ReducedWhile
        } else if same_text(name, "reduced") {
            Algorithm::Reduced
        } else if same_text(name, "bitwise") {
            Algorithm::Bitwise
        } else {
            Algorithm::Basic
        }
    }
}

/// Runs `Optimum`, with its safeguard against cycles, on `n`, and returns the
/// multiply counter, the divide counter and the time taken.
pub fn optimum_syracuse(n: &BigUint) -> (r: Result<(u64, u64, Duration), EngineError>)
    ensures
        match r {
            Ok((multiplies, divides, _)) => outcome(Algorithm::Optimum, value_of(*n)) == Ok::<
                Counts,
                EngineError,
            >(Counts { multiplies: multiplies as nat, divides: divides as nat }),
            Err(e) => outcome(Algorithm::Optimum, value_of(*n)) == Err::<Counts, EngineError>(e),
        },
{
    let start = now();
    match trajectory(Algorithm::Optimum, n) {
        Ok((multiplies, divides)) => Ok((multiplies, divides, elapsed_since(&start))),
        Err(e) => Err(e),
    }
}

/// Runs `algorithm` on `seed`. With `verbose` the record holds the counters
/// and the time taken; without it the record holds zeros.
pub fn compute(seed: &BigUint, algorithm: Algorithm, verbose: bool) -> (r: Result<
    TrajectoryResult,
    EngineError,
>)
    ensures
        reported(algorithm, value_of(*seed), verbose, r),
{
    let start = now();
    match trajectory(algorithm, seed) {
        Ok((multiplies, divides)) => {
            if verbose {
                Ok(TrajectoryResult::new(multiplies, divides, elapsed_since(&start)))
            } else {
                Ok(TrajectoryResult::new(0, 0, span_of_millis(0)))
            }
        },
        Err(e) => Err(e),
    }
}

/// Runs the strategy called `algorithm_name` on `seed`; see
/// [`Algorithm::from_name`] and [`compute`].
pub fn run(algorithm_name: &str, seed: &BigUint, verbose: bool) -> (r: Result<
    TrajectoryResult,
    EngineError,
>)
    ensures
        reported(named(algorithm_name@), value_of(*seed), verbose, r),
{
    compute(seed, Algorithm::from_name(algorithm_name), verbose)
}

/// Where the search for a value below the seed stands.
#[derive(Clone, Copy, Debug, PartialEq, Eq, Structural)]
pub enum Progress {
    /// The seed is settled: it is below `2^64`, or its orbit holds an odd
    /// value below the seed.
    Settled,
    /// Nothing is decided yet.
    Pending,
    /// The orbit holds no odd value below the seed within the first
    /// `u64::MAX` steps.
    Exhausted,
}

/// The search for a value below the seed, as numbers.
pub struct DescentView {
    pub seed: nat,
    pub current: nat,
    pub steps: nat,
    pub progress: Progress,
}

impl DescentView {
    /// What the search has found so far is true of the orbit of the seed.
    pub open spec fn wf(self) -> bool {
        match self.progress {
            Progress::Settled => settled(self.seed),
            Progress::Exhausted => !settled(self.seed),
            Progress::Pending => {
                &&& self.seed >= pow2(64)
                &&& self.steps <= u64::MAX
                &&& self.current == orbit(self.seed, self.steps)
                &&& forall|k: nat|
                    1 <= k <= self.steps ==> !(orbit(self.seed, k) % 2 == 1 && orbit(
                        self.seed,
                        k,
                    ) < self.seed)
            },
        }
    }
}

/// A seed is settled, for a search that goes through the seeds in rising
/// order, when it is below `2^64`, which is taken as searched, or when its
/// orbit holds an odd value below the seed itself within the first
/// `u64::MAX` steps.
pub open spec fn settled(n: nat) -> bool {
    n < pow2(64) || drops_within(n, u64::MAX as nat)
}

/// A search for a value below the seed, which a caller may drive one
/// iteration of `Optimum` at a time.
pub struct Descent {
    seed: BigUint,
    current: BigUint,
    steps: u64,
    progress: Progress,
}

impl View for Descent {
    type V = DescentView;

    closed spec fn view(&self) -> DescentView {
        DescentView {
            seed: value_of(self.seed),
            current: value_of(self.current),
            steps: self.steps as nat,
            progress: self.progress,
        }
    }
}

impl Descent {
    /// Begins the search on `n`. A seed below `2^64` is settled at once.
    pub fn start(n: &BigUint) -> (r: Descent)
        ensures
            r@.wf(),
            r@.seed == value_of(*n),
            r@.steps == 0,
            r@.progress == if value_of(*n) < pow2(64) {
                Progress::Settled
            } else {
                Progress::Pending
            },
    {
        let unit = one();
        let bound = shift_left(&unit, 64);
        let progress = if less(n, &bound) {
            Progress::Settled
        } else {
            Progress::Pending
        };
        let r = Descent { seed: duplicate(n), current: duplicate(n), steps: 0, progress };
        assert(orbit(value_of(*n), 0) == value_of(*n));
        r
    }

    /// Where the search stands.
    pub fn progress(&self) -> (r: Progress)
        ensures
            r == self@.progress,
    {
        self.progress
    }

    /// The seed of the search.
    pub fn seed(&self) -> (r: &BigUint)
        ensures
            value_of(*r) == self@.seed,
    {
        &self.seed
    }

    /// Takes one iteration of `Optimum` and looks at where it lands. A search
    /// that is decided stays as it is; a search that stays pending has gone
    /// further along the orbit.
    pub fn advance(&mut self) -> (r: Progress)
        requires
            old(self)@.wf(),
        ensures
            final(self)@.wf(),
            final(self)@.seed == old(self)@.seed,
            r == final(self)@.progress,
            old(self)@.progress != Progress::Pending ==> final(self)@ == old(self)@,
            r == Progress::Pending ==> final(self)@.steps > old(self)@.steps,
    {
        if !matches!(self.progress, Progress::Pending) {
            return self.progress;
        }
        let ghost v = self@.seed;
        let ghost t = self@.steps;
        let ghost here = self@.current;
        let ghost l = leap(Algorithm::Optimum, here);
        proof {
            lemma_pow2_pos(64);
            lemma_orbit_positive(v, t);
            lemma_leap_on_orbit(Algorithm::Optimum, here);
            lemma_orbit_split(v, t, l.steps());
            assert forall|k: nat| t < k < t + l.steps() implies orbit(v, k) % 2 == 0 by {
                lemma_orbit_split(v, t, (k - t) as nat);
            }
        }
        let reached = match Algorithm::Optimum.advance(&self.current) {
            Ok(advanced) => match advanced.multiplies.checked_add(advanced.divides) {
                Some(charged) => match self.steps.checked_add(charged) {
                    Some(reached) => Some((advanced.value, reached)),
                    None => None,
                },
                None => None,
            },
            Err(_) => None,
        };
        match reached {
            Some((value, steps)) => {
                self.progress = if less(&value, &self.seed) {
                    Progress::Settled
                } else {
                    Progress::Pending
                };
                self.current = value;
                self.steps = steps;
                proof {
                    if self.progress == Progress::Settled {
                        assert(1 <= steps <= u64::MAX && orbit(v, steps as nat) % 2 == 1 && orbit(
                            v,
                            steps as nat,
                        ) < v);
                    }
                }
            },
            None => {
                self.progress = Progress::Exhausted;
            },
        }
        self.progress
    }
}

/// Tells whether `n` is settled for a search that goes through the seeds in
/// rising order: a seed below `2^64` is taken as settled, and any other seed
/// is settled once its orbit holds an odd value below the seed itself. The
/// answer is `false` where the orbit holds no such value within the first
/// `u64::MAX` steps.
pub fn incremental(n: &BigUint) -> (r: bool)
    ensures
        r == settled(value_of(*n)),
{
    let mut search = Descent::start(n);
    while matches!(search.progress(), Progress::Pending)
        invariant
            search@.wf(),
            search@.seed == value_of(*n),
        decreases
            if search@.progress == Progress::Pending {
                u64::MAX - search@.steps + 1
            } else {
                0
            },
    {
        search.advance();
    }
    matches!(search.progress(), Progress::Settled)
}

} // verus!
