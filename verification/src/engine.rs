//! Runs: a seed carried along its orbit, iteration by iteration, until it
//! holds 1 or the run has to be given up.
//!
//! [`outcome`] says how a run of a strategy on a seed ends. [`Run`] is the
//! state of a run that a caller may drive one iteration at a time;
//! [`trajectory`] drives it to its end.

use crate::algorithm::{leap, lemma_leap_on_orbit, Algorithm, EngineError};
use crate::natural::{duplicate, from_u64, less, one, same, value_of};
use crate::orbit::{
    cycle_at, cycles_within, even_steps, first_hit, hits_one_at, lemma_cycle_never_one,
    lemma_first_hit_unique, lemma_no_cycle_at_even, lemma_orbit_positive, lemma_orbit_split,
    odd_steps, orbit, reaches_one_within, step,
};
use num_bigint::BigUint;
use vstd::prelude::*;

verus! {

/// The two counters of a finished run.
pub struct Counts {
    pub multiplies: nat,
    pub divides: nat,
}

/// How a run of `algorithm` on the seed `n` ends.
///
/// Zero is no seed. A seed whose orbit holds 1 within the first `u64::MAX`
/// steps ends well, charged with the odd steps and the halvings up to the
/// first 1. Of the others, `Optimum` reports those whose orbit closes a cycle
/// through its minimum within that many steps; every other run ends when the
/// counters are exhausted.
pub open spec fn outcome(algorithm: Algorithm, n: nat) -> Result<Counts, EngineError> {
    if n == 0 {
        Err(EngineError::InvalidSeed)
    } else if reaches_one_within(n, u64::MAX as nat) {
        Ok(
            Counts {
                multiplies: odd_steps(n, first_hit(n)),
                divides: even_steps(n, first_hit(n)),
            },
        )
    } else if algorithm == Algorithm::Optimum && cycles_within(n, u64::MAX as nat) {
        Err(EngineError::CycleDetected)
    } else {
        Err(EngineError::CounterOverflow)
    }
}

/// Every strategy ends a run on the same seed in the same way: either all
/// five end well, with the same multiply counter and the same divide counter,
/// which together count the steps to the first 1, or none of them ends well.
pub proof fn lemma_counts_agree(a: Algorithm, b: Algorithm, n: nat)
    ensures
        outcome(a, n) is Ok <==> outcome(b, n) is Ok,
        outcome(a, n) is Ok ==> outcome(a, n) == outcome(b, n),
        outcome(a, n) matches Ok(c) ==> c.multiplies + c.divides == first_hit(n) && hits_one_at(
            n,
            first_hit(n),
        ),
{
    if n >= 1 && reaches_one_within(n, u64::MAX as nat) {
        let k = choose|k: nat| k <= u64::MAX && orbit(n, k) == 1;
        lemma_hits_one_first(n, k);
        lemma_odd_steps_bounded(n, first_hit(n));
    }
}

/// An orbit that holds 1 at `k` holds it for the first time at some index up
/// to `k`.
pub proof fn lemma_hits_one_first(n: nat, k: nat)
    requires
        orbit(n, k) == 1,
    ensures
        hits_one_at(n, first_hit(n)),
        first_hit(n) <= k,
    decreases k,
{
    if forall|j: nat| j < k ==> orbit(n, j) != 1 {
        assert(hits_one_at(n, k));
        lemma_first_hit_unique(n, k);
    } else {
        let j = choose|j: nat| j < k && orbit(n, j) == 1;
        lemma_hits_one_first(n, j);
    }
}

/// No more than `k` of the first `k` steps are odd.
pub proof fn lemma_odd_steps_bounded(n: nat, k: nat)
    ensures
        odd_steps(n, k) <= k,
    decreases k,
{
    if k > 0 {
        lemma_odd_steps_bounded(n, (k - 1) as nat);
    }
}

/// After `t` steps the orbit of `n` holds `value`, `multiplies` of the steps
/// were odd, and the orbit did not hold 1 before.
pub open spec fn on_orbit(n: nat, t: nat, value: nat, multiplies: nat) -> bool {
    &&& value == orbit(n, t)
    &&& multiplies == odd_steps(n, t)
    &&& forall|k: nat| k < t ==> orbit(n, k) != 1
}

/// `floor` is the smallest value that the orbit of `n` holds in its first `t`
/// steps, and the orbit has not closed a cycle through its minimum so far.
pub open spec fn guarded(n: nat, t: nat, floor: nat) -> bool {
    &&& forall|i: nat| i <= t ==> floor <= orbit(n, i)
    &&& exists|j: nat| j <= t && orbit(n, j) == floor
    &&& forall|c: nat| c <= t ==> !cycle_at(n, c)
}

/// One iteration from a value on the orbit, other than 1, leads to a value
/// further along the orbit, with the counters in step.
pub proof fn lemma_advance_on_orbit(algorithm: Algorithm, n: nat, t: nat, v: nat, m: nat)
    requires
        n >= 1,
        on_orbit(n, t, v, m),
        v != 1,
    ensures
        v >= 1,
        leap(algorithm, v).steps() >= 1,
        on_orbit(
            n,
            t + leap(algorithm, v).steps(),
            leap(algorithm, v).value,
            m + leap(algorithm, v).multiplies,
        ),
        forall|k: nat| t < k < t + leap(algorithm, v).steps() ==> orbit(n, k) != 1,
        algorithm == Algorithm::Optimum ==> leap(algorithm, v).value % 2 == 1,
        algorithm == Algorithm::Optimum ==> forall|k: nat|
            t < k < t + leap(algorithm, v).steps() ==> orbit(n, k) % 2 == 0,
{
    let l = leap(algorithm, v);
    let s = l.steps();
    lemma_orbit_positive(n, t);
    lemma_leap_on_orbit(algorithm, v);
    lemma_orbit_split(n, t, s);
    assert forall|k: nat| t < k < t + s implies orbit(n, k) != 1 && (algorithm
        == Algorithm::Optimum ==> orbit(n, k) % 2 == 0) by {
        let j = (k - t) as nat;
        lemma_orbit_split(n, t, j);
        assert(orbit(v, j) != 1);
    }
    assert forall|k: nat| k < t + s implies orbit(n, k) != 1 by {
        if k > t {
        }
    }
}

/// Along a run of even values the orbit only falls: every value in the run is
/// above the value that follows the run.
pub proof fn lemma_even_run_falls(n: nat, t: nat, s: nat, k: nat)
    requires
        n >= 1,
        t < k < t + s,
        forall|i: nat| t < i < t + s ==> orbit(n, i) % 2 == 0,
    ensures
        orbit(n, k) > orbit(n, t + s),
    decreases t + s - k,
{
    lemma_orbit_positive(n, k);
    assert(orbit(n, k + 1) == step(orbit(n, k)));
    if k + 1 < t + s {
        lemma_even_run_falls(n, t, s, k + 1);
    }
}

/// The safeguard across one iteration that passes through even values only
/// and lands on `orbit(n, t + s)`: landing on the floor closes a cycle, and
/// landing anywhere else leaves the orbit guarded by the smaller of the two.
pub proof fn lemma_guard_advance(n: nat, t: nat, s: nat, floor: nat)
    requires
        n >= 1,
        s >= 1,
        guarded(n, t, floor),
        forall|k: nat| k <= t ==> orbit(n, k) != 1,
        forall|k: nat| t < k < t + s ==> orbit(n, k) % 2 == 0,
    ensures
        orbit(n, t + s) == floor ==> cycle_at(n, t + s),
        orbit(n, t + s) != floor ==> guarded(
            n,
            t + s,
            if orbit(n, t + s) < floor {
                orbit(n, t + s)
            } else {
                floor
            },
        ),
{
    let landing = orbit(n, t + s);
    let at = choose|j: nat| j <= t && orbit(n, j) == floor;
    lemma_orbit_positive(n, at);
    assert(floor > 1);
    assert forall|i: nat| t < i < t + s implies orbit(n, i) > landing by {
        lemma_even_run_falls(n, t, s, i);
    }
    if landing == floor {
        assert(at < t + s && orbit(n, at) == orbit(n, t + s));
        assert forall|i: nat| i < t + s implies landing <= orbit(n, i) by {
            if i > t {
            }
        }
    } else {
        let lower = if landing < floor {
            landing
        } else {
            floor
        };
        assert forall|i: nat| i <= t + s implies lower <= orbit(n, i) by {
            if i > t && i < t + s {
                assert(orbit(n, i) > landing);
            }
        }
        if landing < floor {
            assert(t + s <= t + s && orbit(n, t + s) == lower);
        } else {
            assert(at <= t + s && orbit(n, at) == lower);
        }
        assert forall|c: nat| c <= t + s implies !cycle_at(n, c) by {
            if c > t && c < t + s {
                lemma_no_cycle_at_even(n, c);
            } else if c == t + s {
                if landing < floor {
                    if cycle_at(n, c) {
                        let j = choose|j: nat| j < c && orbit(n, j) == orbit(n, c);
                        if j > t {
                            assert(orbit(n, j) > landing);
                        } else {
                            assert(floor <= orbit(n, j));
                        }
                    }
                } else {
                    assert(landing > orbit(n, at));
                }
            }
        }
    }
}

/// An iteration that passes through even values only, and that the counters
/// cannot follow to its end, closes no cycle within the counters' reach.
pub proof fn lemma_guard_overflow(n: nat, t: nat, s: nat, floor: nat, limit: nat)
    requires
        n >= 1,
        guarded(n, t, floor),
        forall|k: nat| t < k < t + s ==> orbit(n, k) % 2 == 0,
        limit < t + s,
    ensures
        !cycles_within(n, limit),
{
    assert forall|c: nat| c <= limit implies !cycle_at(n, c) by {
        if c > t {
            lemma_no_cycle_at_even(n, c);
        }
    }
}

/// The safeguard against cycles: it remembers the smallest value it was
/// shown and tells when it is shown that value again.
pub struct MinimumTracker {
    floor: BigUint,
}

impl View for MinimumTracker {
    type V = nat;

    /// The smallest value shown so far.
    closed spec fn view(&self) -> nat {
        value_of(self.floor)
    }
}

impl MinimumTracker {
    /// A tracker that has been shown `seed` only.
    pub fn new(seed: &BigUint) -> (r: Self)
        ensures
            r@ == value_of(*seed),
    {
        MinimumTracker { floor: duplicate(seed) }
    }

    /// Shows `value` to the tracker. The answer is `true` exactly when `value`
    /// is the smallest value shown before; the tracker then remembers the
    /// smaller of the two.
    pub fn observe(&mut self, value: &BigUint) -> (repeated: bool)
        ensures
            repeated == (value_of(*value) == old(self)@),
            final(self)@ == if value_of(*value) < old(self)@ {
                value_of(*value)
            } else {
                old(self)@
            },
    {
        if less(value, &self.floor) {
            self.floor = duplicate(value);
            false
        } else {
            same(value, &self.floor)
        }
    }
}

/// What a run has come to, as numbers.
pub struct RunView {
    pub algorithm: Algorithm,
    pub origin: nat,
    pub value: nat,
    pub multiplies: nat,
    pub divides: nat,
    pub floor: nat,
}

impl RunView {
    /// The number of steps of the plain map taken so far.
    pub open spec fn steps(self) -> nat {
        self.multiplies + self.divides
    }

    /// The run stands on the orbit of its seed: its value is the orbit's value
    /// after as many steps as the two counters hold together, the multiply
    /// counter holds the odd steps among them, the orbit did not hold 1
    /// before, and both counters together fit in 64 bits. A run of `Optimum`
    /// is guarded as well.
    pub open spec fn wf(self) -> bool {
        &&& self.origin >= 1
        &&& self.steps() <= u64::MAX
        &&& on_orbit(self.origin, self.steps(), self.value, self.multiplies)
        &&& self.algorithm == Algorithm::Optimum ==> guarded(
            self.origin,
            self.steps(),
            self.floor,
        )
    }

    /// The run after one more iteration.
    pub open spec fn next(self) -> RunView {
        let l = leap(self.algorithm, self.value);
        RunView {
            algorithm: self.algorithm,
            origin: self.origin,
            value: l.value,
            multiplies: self.multiplies + l.multiplies,
            divides: self.divides + l.divides,
            floor: if self.algorithm == Algorithm::Optimum && l.value < self.floor {
                l.value
            } else {
                self.floor
            },
        }
    }

    /// Why the run cannot take one more iteration, if it cannot: the counters
    /// would not hold the steps, or the iteration of `Optimum` would land on
    /// the smallest value seen.
    pub open spec fn obstacle(self) -> Option<EngineError> {
        let l = leap(self.algorithm, self.value);
        if self.steps() + l.steps() > u64::MAX {
            Some(EngineError::CounterOverflow)
        } else if self.algorithm == Algorithm::Optimum && l.value == self.floor {
            Some(EngineError::CycleDetected)
        } else {
            None
        }
    }
}

/// A run in progress.
pub struct Run {
    algorithm: Algorithm,
    origin: Ghost<nat>,
    value: BigUint,
    multiply_count: u64,
    divide_count: u64,
    tracker: MinimumTracker,
}

impl View for Run {
    type V = RunView;

    closed spec fn view(&self) -> RunView {
        RunView {
            algorithm: self.algorithm,
            origin: self.origin@,
            value: value_of(self.value),
            multiplies: self.multiply_count as nat,
            divides: self.divide_count as nat,
            floor: self.tracker@,
        }
    }
}

impl Run {
    /// Begins a run of `algorithm` on `seed`. Zero is rejected.
    pub fn start(algorithm: Algorithm, seed: &BigUint) -> (r: Result<Run, EngineError>)
        ensures
            r is Ok <==> value_of(*seed) >= 1,
            r matches Ok(run) ==> run@.wf() && run@ == (RunView {
                algorithm,
                origin: value_of(*seed),
                value: value_of(*seed),
                multiplies: 0,
                divides: 0,
                floor: value_of(*seed),
            }),
            r matches Err(e) ==> e == EngineError::InvalidSeed,
    {
        let zero = from_u64(0);
        if same(seed, &zero) {
            return Err(EngineError::InvalidSeed);
        }
        let run = Run {
            algorithm,
            origin: Ghost(value_of(*seed)),
            value: duplicate(seed),
            multiply_count: 0,
            divide_count: 0,
            tracker: MinimumTracker::new(seed),
        };
        proof {
            let n = value_of(*seed);
            assert(orbit(n, 0) == n);
            assert(!cycle_at(n, 0));
        }
        Ok(run)
    }

    /// The strategy of the run.
    pub fn algorithm(&self) -> (r: Algorithm)
        ensures
            r == self@.algorithm,
    {
        self.algorithm
    }

    /// The value that the run holds.
    pub fn value(&self) -> (r: &BigUint)
        ensures
            value_of(*r) == self@.value,
    {
        &self.value
    }

    /// The odd steps taken so far.
    pub fn multiply_count(&self) -> (r: u64)
        ensures
            r == self@.multiplies,
    {
        self.multiply_count
    }

    /// The halvings taken so far.
    pub fn divide_count(&self) -> (r: u64)
        ensures
            r == self@.divides,
    {
        self.divide_count
    }

    /// Whether the run has reached 1.
    pub fn is_done(&self) -> (r: bool)
        ensures
            r == (self@.value == 1),
    {
        let unit = one();
        same(&self.value, &unit)
    }

    /// Takes one iteration.
    ///
    /// A run that has reached 1 stays as it is. Otherwise the run moves to
    /// `next()`, unless `obstacle()` names an error: then that error is
    /// returned, the run stays as it is, and the error is how every run of
    /// this strategy on this seed ends. Neither counter ever decreases.
    pub fn step(&mut self) -> (r: Result<(), EngineError>)
        requires
            old(self)@.wf(),
        ensures
            final(self)@.wf(),
            final(self)@.multiplies >= old(self)@.multiplies,
            final(self)@.divides >= old(self)@.divides,
            old(self)@.value == 1 ==> r is Ok && final(self)@ == old(self)@,
            old(self)@.value != 1 ==> match r {
                Ok(()) => old(self)@.obstacle() is None && final(self)@ == old(self)@.next()
                    && final(self)@.steps() > old(self)@.steps(),
                Err(e) => old(self)@.obstacle() == Some(e) && final(self)@ == old(self)@
                    && outcome(old(self)@.algorithm, old(self)@.origin) == Err::<
                    Counts,
                    EngineError,
                >(e),
            },
    {
        if self.is_done() {
            return Ok(());
        }
        let ghost before = self@;
        let ghost n = before.origin;
        let ghost t = before.steps();
        let ghost v = before.value;
        let ghost l = leap(before.algorithm, v);
        proof {
            lemma_advance_on_orbit(before.algorithm, n, t, v, before.multiplies);
        }
        let advanced = match self.algorithm.advance(&self.value) {
            Ok(advanced) => advanced,
            Err(_) => {
                proof {
                    lemma_out_of_reach(before);
                }
                return Err(EngineError::CounterOverflow);
            },
        };
        let multiplies = match self.multiply_count.checked_add(advanced.multiplies) {
            Some(m) => m,
            None => {
                proof {
                    lemma_out_of_reach(before);
                }
                return Err(EngineError::CounterOverflow);
            },
        };
        let divides = match self.divide_count.checked_add(advanced.divides) {
            Some(d) => d,
            None => {
                proof {
                    lemma_out_of_reach(before);
                }
                return Err(EngineError::CounterOverflow);
            },
        };
        if multiplies.checked_add(divides).is_none() {
            proof {
                lemma_out_of_reach(before);
            }
            return Err(EngineError::CounterOverflow);
        }
        if matches!(self.algorithm, Algorithm::Optimum) {
            proof {
                assert forall|k: nat| k <= t implies orbit(n, k) != 1 by {}
                lemma_guard_advance(n, t, l.steps(), before.floor);
            }
            if self.tracker.observe(&advanced.value) {
                proof {
                    lemma_cycle_is_final(before.algorithm, n, t + l.steps());
                }
                return Err(EngineError::CycleDetected);
            }
        }
        self.value = advanced.value;
        self.multiply_count = multiplies;
        self.divide_count = divides;
        Ok(())
    }
}

/// A run whose next iteration the counters cannot follow ends by exhausting
/// them, whatever iteration it is at.
pub proof fn lemma_out_of_reach(run: RunView)
    requires
        run.wf(),
        run.value != 1,
        run.steps() + leap(run.algorithm, run.value).steps() > u64::MAX,
    ensures
        outcome(run.algorithm, run.origin) == Err::<Counts, EngineError>(
            EngineError::CounterOverflow,
        ),
{
    let n = run.origin;
    let t = run.steps();
    let s = leap(run.algorithm, run.value).steps();
    lemma_advance_on_orbit(run.algorithm, n, t, run.value, run.multiplies);
    assert forall|k: nat| k <= u64::MAX implies orbit(n, k) != 1 by {
        if k > t {
        }
    }
    if run.algorithm == Algorithm::Optimum {
        lemma_guard_overflow(n, t, s, run.floor, u64::MAX as nat);
    }
}

/// A seed whose orbit closes a cycle through its minimum within the counters'
/// reach never reaches 1: `Optimum` ends its run with `CycleDetected`.
pub proof fn lemma_cycle_is_final(algorithm: Algorithm, n: nat, t: nat)
    requires
        n >= 1,
        t <= u64::MAX,
        cycle_at(n, t),
        algorithm == Algorithm::Optimum,
    ensures
        !reaches_one_within(n, u64::MAX as nat),
        outcome(algorithm, n) == Err::<Counts, EngineError>(EngineError::CycleDetected),
{
    assert forall|k: nat| k <= u64::MAX implies orbit(n, k) != 1 by {
        lemma_cycle_never_one(n, t, k);
    }
    assert(cycles_within(n, u64::MAX as nat));
}

/// Runs `algorithm` on `seed` to its end and returns the multiply counter and
/// the divide counter, in this order.
pub fn trajectory(algorithm: Algorithm, seed: &BigUint) -> (r: Result<(u64, u64), EngineError>)
    ensures
        match r {
            Ok((multiplies, divides)) => outcome(algorithm, value_of(*seed)) == Ok::<
                Counts,
                EngineError,
            >(Counts { multiplies: multiplies as nat, divides: divides as nat }),
            Err(e) => outcome(algorithm, value_of(*seed)) == Err::<Counts, EngineError>(e),
        },
{
    let mut run = match Run::start(algorithm, seed) {
        Ok(run) => run,
        Err(e) => {
            return Err(e);
        },
    };
    while !run.is_done()
        invariant
            run@.wf(),
            run@.origin == value_of(*seed),
            run@.algorithm == algorithm,
        decreases u64::MAX - run@.steps(),
    {
        match run.step() {
            Ok(()) => {},
            Err(e) => {
                return Err(e);
            },
        }
    }
    proof {
        lemma_first_hit_unique(run@.origin, run@.steps());
    }
    Ok((run.multiply_count(), run.divide_count()))
}

/// The smallest of `seed` and `values`.
pub open spec fn running_floor(seed: nat, values: Seq<nat>) -> nat
    decreases values.len(),
{
    if values.len() == 0 {
        seed
    } else if values.last() < running_floor(seed, values.drop_last()) {
        values.last()
    } else {
        running_floor(seed, values.drop_last())
    }
}

/// The value at index `i` is the smallest of `seed` and the values before
/// it: the sequence has come back to its minimum.
pub open spec fn revisits_at(seed: nat, values: Seq<nat>, i: int) -> bool {
    0 <= i < values.len() && values[i] == running_floor(seed, values.take(i))
}

/// The numbers that a list of big integers holds.
pub open spec fn values_of(list: Seq<BigUint>) -> Seq<nat> {
    Seq::new(list.len(), |i: int| value_of(list[i]))
}

/// Shows the safeguard a seed and then the values that any map whatever has
/// produced from it, in order, and returns the first index at which the
/// sequence comes back to its minimum, if there is one.
pub fn first_revisit(seed: &BigUint, values: &Vec<BigUint>) -> (r: Option<usize>)
    ensures
        match r {
            Some(i) => revisits_at(value_of(*seed), values_of(values@), i as int) && forall|
                j: int,
            |
                0 <= j < i ==> !revisits_at(value_of(*seed), values_of(values@), j),
            None => forall|j: int| !revisits_at(value_of(*seed), values_of(values@), j),
        },
{
    let ghost all = values_of(values@);
    let mut tracker = MinimumTracker::new(seed);
    let mut at: usize = 0;
    proof {
        assert(all.take(0) =~= Seq::<nat>::empty());
    }
    while at < values.len()
        invariant
            at <= values.len(),
            all == values_of(values@),
            tracker@ == running_floor(value_of(*seed), all.take(at as int)),
            forall|j: int| 0 <= j < at ==> !revisits_at(value_of(*seed), all, j),
        decreases values.len() - at,
    {
        proof {
            let upto = all.take(at + 1);
            assert(upto.drop_last() =~= all.take(at as int));
            assert(upto.last() == all[at as int]);
        }
        if tracker.observe(&values[at]) {
            return Some(at);
        }
        at = at + 1;
    }
    None
}

} // verus!
