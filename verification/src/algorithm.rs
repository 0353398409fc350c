//! The five iteration strategies.
//!
//! Every strategy walks the same orbit. They differ in how far one iteration
//! carries the value and in the arithmetic that carries it: [`leap`] says, for
//! each strategy, where one iteration lands and what it is charged, and
//! [`lemma_leap_on_orbit`] proves that every landing point lies on the orbit of
//! the plain map with exactly the charged number of odd and even steps.

use crate::natural::{
    duplicate, from_u64, is_even, one, product, quotient, remainder, same, shift_left,
    shift_right, sum, trailing_zeros, value_of,
};
use crate::orbit::{
    lemma_halving_run, lemma_low_zeros_divides, lemma_low_zeros_is, lemma_low_zeros_triple,
    lemma_orbit_split, low_zeros, odd_steps, orbit, step,
};
use num_bigint::BigUint;
use vstd::arithmetic::power2::{lemma2_to64, lemma_pow2_pos, pow2};
use vstd::prelude::*;

verus! {

/// Why a run did not end at 1.
#[derive(Clone, Copy, Debug, PartialEq, Eq, Structural)]
pub enum EngineError {
    /// The seed is zero, on which the map is not defined.
    InvalidSeed,
    /// The orbit came back to the smallest value it had held: it is caught in
    /// a cycle that does not pass through 1.
    CycleDetected,
    /// The orbit did not reach 1 within the steps that the 64-bit counters
    /// can count.
    CounterOverflow,
}

impl EngineError {
    /// What the error says, as a spec.
    pub open spec fn text(self) -> Seq<char> {
        match self {
            EngineError::InvalidSeed => "the map is not defined on zero"@,
            EngineError::CycleDetected => "-------------- Loop found ! -----------------"@,
            EngineError::CounterOverflow => "the step counters are exhausted"@,
        }
    }

    /// What the error says.
    pub fn message(&self) -> (r: &'static str)
        ensures
            r@ == self.text(),
    {
        match self {
            EngineError::InvalidSeed => "the map is not defined on zero",
            EngineError::CycleDetected => "-------------- Loop found ! -----------------",
            EngineError::CounterOverflow => "the step counters are exhausted",
        }
    }
}

/// An iteration strategy.
#[derive(Clone, Copy, Debug, PartialEq, Eq, Structural)]
pub enum Algorithm {
    /// One step of the map per iteration, by remainder, division and
    /// multiplication.
    Basic,
    /// One step of the map per iteration, by parity test, shift and addition.
    Bitwise,
    /// As `Bitwise`, but an odd step and the halving that must follow it are
    /// one iteration.
    Reduced,
    /// All the fused odd steps in a row, then all the halvings in a row, are
    /// one iteration.
    ReducedWhile,
    /// At most one fused odd step, then all the halvings in a row by a single
    /// shift, are one iteration.
    Optimum,
}

/// Where one iteration lands and what it is charged.
pub struct Leap {
    pub value: nat,
    pub multiplies: nat,
    pub divides: nat,
}

impl Leap {
    /// The number of steps of the plain map that the iteration stands for.
    pub open spec fn steps(self) -> nat {
        self.multiplies + self.divides
    }
}

/// The value after `r` fused odd steps from `v`, each taking `c` to
/// `(3c + 1) / 2`.
pub open spec fn climb(v: nat, r: nat) -> nat
    decreases r,
{
    if r == 0 {
        v
    } else {
        (3 * climb(v, (r - 1) as nat) + 1) / 2
    }
}

/// How many fused odd steps in a row the orbit takes from `v` before it holds
/// an even number.
pub open spec fn odd_run(v: nat) -> nat {
    if v % 2 == 1 {
        low_zeros(v + 1)
    } else {
        0
    }
}

/// One iteration of `algorithm` from `v`.
pub open spec fn leap(algorithm: Algorithm, v: nat) -> Leap {
    match algorithm {
        Algorithm::Basic | Algorithm::Bitwise => if v % 2 == 0 {
            Leap { value: v / 2, multiplies: 0, divides: 1 }
        } else {
            Leap { value: 3 * v + 1, multiplies: 1, divides: 0 }
        },
        Algorithm::Reduced => if v % 2 == 0 {
            Leap { value: v / 2, multiplies: 0, divides: 1 }
        } else {
            Leap { value: (3 * v + 1) / 2, multiplies: 1, divides: 1 }
        },
        Algorithm::ReducedWhile => {
            let r = odd_run(v);
            let w = climb(v, r);
            let e = low_zeros(w);
            Leap { value: w / pow2(e), multiplies: r, divides: r + e }
        },
        Algorithm::Optimum => if v % 2 == 0 {
            let e = low_zeros(v);
            Leap { value: v / pow2(e), multiplies: 0, divides: e }
        } else {
            let w = (3 * v + 1) / 2;
            let e = low_zeros(w);
            Leap { value: w / pow2(e), multiplies: 1, divides: 1 + e }
        },
    }
}

/// The first `i` fused odd steps from `v`, for `i` up to `odd_run(v)`, follow
/// the orbit of `v` two plain steps at a time, one of them odd; every value on
/// the way is above 1, and the run ends exactly when an even value comes up.
pub proof fn lemma_climb_on_orbit(v: nat, i: nat)
    requires
        v >= 1,
        i <= odd_run(v),
    ensures
        climb(v, i) >= 1,
        climb(v, i) == orbit(v, 2 * i),
        odd_steps(v, 2 * i) == i,
        forall|j: nat| 0 < j <= 2 * i ==> orbit(v, j) > 1,
        v % 2 == 1 ==> low_zeros(climb(v, i) + 1) + i == low_zeros(v + 1),
        climb(v, i) % 2 == 1 <==> i < odd_run(v),
    decreases i,
{
    if i == 0 {
    } else {
        let h = (i - 1) as nat;
        lemma_climb_on_orbit(v, h);
        let c = climb(v, h);
        assert(c % 2 == 1);
        assert(orbit(v, 2 * h + 1) == step(orbit(v, 2 * h)));
        assert(orbit(v, 2 * h + 2) == step(orbit(v, 2 * h + 1)));
        assert(2 * i == 2 * h + 2);
        assert(odd_steps(v, 2 * h + 1) == h + 1);
        assert(odd_steps(v, 2 * h + 2) == h + 1);
        let m = (c + 1) / 2;
        assert(climb(v, i) + 1 == 3 * m);
        lemma_low_zeros_triple(m as nat);
        assert(low_zeros(c + 1) == 1 + low_zeros(m as nat));
        assert forall|j: nat| 0 < j <= 2 * i implies orbit(v, j) > 1 by {
            if j <= 2 * h {
            }
        }
    }
}

/// Every iteration of every strategy lands on the orbit of the plain map: the
/// value it reaches is the orbit's value after as many plain steps as the
/// iteration is charged, its multiplies are the odd steps among them, and the
/// orbit does not pass through 1 on the way. An iteration of `Optimum` passes
/// through even numbers only and lands on an odd one.
pub proof fn lemma_leap_on_orbit(algorithm: Algorithm, v: nat)
    requires
        v >= 1,
    ensures
        leap(algorithm, v).steps() >= 1,
        leap(algorithm, v).value == orbit(v, leap(algorithm, v).steps()),
        leap(algorithm, v).multiplies == odd_steps(v, leap(algorithm, v).steps()),
        forall|j: nat| 0 < j < leap(algorithm, v).steps() ==> orbit(v, j) != 1,
        algorithm == Algorithm::Optimum ==> leap(algorithm, v).value % 2 == 1,
        algorithm == Algorithm::Optimum ==> forall|j: nat|
            0 < j < leap(algorithm, v).steps() ==> orbit(v, j) % 2 == 0,
{
    match algorithm {
        Algorithm::Basic | Algorithm::Bitwise => {
            assert(orbit(v, 1) == step(orbit(v, 0)));
            assert(odd_steps(v, 1) == odd_steps(v, 0) + if v % 2 == 1 {
                1nat
            } else {
                0nat
            });
        },
        Algorithm::Reduced => {
            lemma_two_steps(v);
        },
        Algorithm::ReducedWhile => {
            lemma_leap_reduced_while(v);
        },
        Algorithm::Optimum => {
            lemma_leap_optimum(v);
        },
    }
}

/// The first two steps from `v`, written out.
proof fn lemma_two_steps(v: nat)
    ensures
        orbit(v, 1) == step(v),
        orbit(v, 2) == step(step(v)),
        odd_steps(v, 1) == if v % 2 == 1 {
            1nat
        } else {
            0nat
        },
        odd_steps(v, 2) == odd_steps(v, 1) + if step(v) % 2 == 1 {
            1nat
        } else {
            0nat
        },
{
    assert(orbit(v, 0) == v);
    assert(orbit(v, 1) == step(orbit(v, 0)));
    assert(orbit(v, 2) == step(orbit(v, 1)));
    assert(odd_steps(v, 0) == 0);
    assert(odd_steps(v, 1) == odd_steps(v, 0) + if orbit(v, 0) % 2 == 1 {
        1nat
    } else {
        0nat
    });
    assert(odd_steps(v, 2) == odd_steps(v, 1) + if orbit(v, 1) % 2 == 1 {
        1nat
    } else {
        0nat
    });
}

proof fn lemma_leap_reduced_while(v: nat)
    requires
        v >= 1,
    ensures
        leap(Algorithm::ReducedWhile, v).steps() >= 1,
        leap(Algorithm::ReducedWhile, v).value == orbit(
            v,
            leap(Algorithm::ReducedWhile, v).steps(),
        ),
        leap(Algorithm::ReducedWhile, v).multiplies == odd_steps(
            v,
            leap(Algorithm::ReducedWhile, v).steps(),
        ),
        forall|j: nat| 0 < j < leap(Algorithm::ReducedWhile, v).steps() ==> orbit(v, j) != 1,
{
    let l = leap(Algorithm::ReducedWhile, v);
    let r = odd_run(v);
    let w = climb(v, r);
    let e = low_zeros(w);
    lemma_climb_on_orbit(v, r);
    lemma_low_zeros_divides(w);
    lemma_halving_run(w, e);
    lemma_orbit_split(v, 2 * r, e);
    assert(w % 2 == 0);
    assert(e >= 1);
    assert(l.steps() == 2 * r + e);
    assert forall|j: nat| 0 < j < l.steps() implies orbit(v, j) != 1 by {
        if j > 2 * r {
            let d = (j - 2 * r) as nat;
            lemma_orbit_split(v, 2 * r, d);
            assert(orbit(w, d) % 2 == 0);
        } else {
            assert(orbit(v, j) > 1);
        }
    }
}

proof fn lemma_leap_optimum(v: nat)
    requires
        v >= 1,
    ensures
        leap(Algorithm::Optimum, v).steps() >= 1,
        leap(Algorithm::Optimum, v).value == orbit(v, leap(Algorithm::Optimum, v).steps()),
        leap(Algorithm::Optimum, v).multiplies == odd_steps(
            v,
            leap(Algorithm::Optimum, v).steps(),
        ),
        leap(Algorithm::Optimum, v).value % 2 == 1,
        forall|j: nat| 0 < j < leap(Algorithm::Optimum, v).steps() ==> orbit(v, j) % 2 == 0,
{
    let l = leap(Algorithm::Optimum, v);
    if v % 2 == 0 {
        let e = low_zeros(v);
        lemma_low_zeros_divides(v);
        lemma_halving_run(v, e);
    } else {
        let w = (3 * v + 1) / 2;
        let e = low_zeros(w);
        lemma_two_steps(v);
        lemma_low_zeros_divides(w);
        lemma_halving_run(w, e);
        lemma_orbit_split(v, 2, e);
        assert(l.steps() == 2 + e);
        assert forall|j: nat| 0 < j < l.steps() implies orbit(v, j) % 2 == 0 by {
            if j >= 2 {
                let d = (j - 2) as nat;
                lemma_orbit_split(v, 2, d);
                assert(orbit(w, d) % 2 == 0);
            }
        }
    }
}

/// What one iteration did: the value it reached and what it is charged.
pub struct Advance {
    pub value: BigUint,
    pub multiplies: u64,
    pub divides: u64,
}

impl Advance {
    /// The iteration as numbers.
    pub open spec fn view(&self) -> Leap {
        Leap {
            value: value_of(self.value),
            multiplies: self.multiplies as nat,
            divides: self.divides as nat,
        }
    }
}

impl Algorithm {
    /// Carries `value` through one iteration of this strategy.
    ///
    /// Zero is rejected. The iteration fails with `CounterOverflow` exactly
    /// when one of its two charges does not fit in 64 bits, which only
    /// `ReducedWhile` and `Optimum` can come to.
    pub fn advance(&self, value: &BigUint) -> (r: Result<Advance, EngineError>)
        ensures
            r is Ok <==> value_of(*value) >= 1 && leap(*self, value_of(*value)).multiplies
                <= u64::MAX && leap(*self, value_of(*value)).divides <= u64::MAX,
            r matches Ok(a) ==> a@ == leap(*self, value_of(*value)),
            r matches Err(e) ==> e == if value_of(*value) == 0 {
                EngineError::InvalidSeed
            } else {
                EngineError::CounterOverflow
            },
    {
        let zero = from_u64(0);
        if same(value, &zero) {
            return Err(EngineError::InvalidSeed);
        }
        match self {
            Algorithm::Basic => Ok(advance_basic(value)),
            Algorithm::Bitwise => Ok(advance_bitwise(value)),
            Algorithm::Reduced => Ok(advance_reduced(value)),
            Algorithm::ReducedWhile => advance_reduced_while(value),
            Algorithm::Optimum => advance_optimum(value),
        }
    }
}

/// `3n + 1` by one shift and two additions: `(n << 1) + n + 1`.
fn triple_plus_one(n: &BigUint) -> (r: BigUint)
    ensures
        value_of(r) == 3 * value_of(*n) + 1,
{
    proof {
        lemma2_to64();
    }
    let doubled = shift_left(n, 1);
    let tripled = sum(&doubled, n);
    let unit = one();
    sum(&tripled, &unit)
}

/// The fused odd step `((n << 1) + n + 1) >> 1`.
fn fused_odd_step(n: &BigUint) -> (r: BigUint)
    ensures
        value_of(r) == (3 * value_of(*n) + 1) / 2,
{
    proof {
        lemma2_to64();
    }
    let grown = triple_plus_one(n);
    shift_right(&grown, 1)
}

fn advance_basic(value: &BigUint) -> (a: Advance)
    requires
        value_of(*value) >= 1,
    ensures
        a@ == leap(Algorithm::Basic, value_of(*value)),
{
    let two = from_u64(2);
    let zero = from_u64(0);
    let rest = remainder(value, &two);
    if same(&rest, &zero) {
        Advance { value: quotient(value, &two), multiplies: 0, divides: 1 }
    } else {
        let three = from_u64(3);
        let unit = one();
        let tripled = product(value, &three);
        assert(value_of(*value) * 3 == 3 * value_of(*value));
        Advance { value: sum(&tripled, &unit), multiplies: 1, divides: 0 }
    }
}

fn advance_bitwise(value: &BigUint) -> (a: Advance)
    requires
        value_of(*value) >= 1,
    ensures
        a@ == leap(Algorithm::Bitwise, value_of(*value)),
{
    proof {
        lemma2_to64();
    }
    if is_even(value) {
        Advance { value: shift_right(value, 1), multiplies: 0, divides: 1 }
    } else {
        Advance { value: triple_plus_one(value), multiplies: 1, divides: 0 }
    }
}

fn advance_reduced(value: &BigUint) -> (a: Advance)
    requires
        value_of(*value) >= 1,
    ensures
        a@ == leap(Algorithm::Reduced, value_of(*value)),
{
    proof {
        lemma2_to64();
    }
    if is_even(value) {
        Advance { value: shift_right(value, 1), multiplies: 0, divides: 1 }
    } else {
        Advance { value: fused_odd_step(value), multiplies: 1, divides: 1 }
    }
}

fn advance_reduced_while(value: &BigUint) -> (r: Result<Advance, EngineError>)
    requires
        value_of(*value) >= 1,
    ensures
        r is Ok <==> leap(Algorithm::ReducedWhile, value_of(*value)).multiplies <= u64::MAX
            && leap(Algorithm::ReducedWhile, value_of(*value)).divides <= u64::MAX,
        r matches Ok(a) ==> a@ == leap(Algorithm::ReducedWhile, value_of(*value)),
        r matches Err(e) ==> e == EngineError::CounterOverflow,
{
    let ghost v = value_of(*value);
    let ghost run = odd_run(v);
    let mut current = duplicate(value);
    let mut multiplies: u64 = 0;
    proof {
        lemma_climb_on_orbit(v, 0);
    }
    while !is_even(&current)
        invariant
            v == value_of(*value),
            v >= 1,
            run == odd_run(v),
            multiplies <= run,
            value_of(current) == climb(v, multiplies as nat),
        decreases u64::MAX - multiplies,
    {
        proof {
            lemma_climb_on_orbit(v, multiplies as nat);
        }
        if multiplies == u64::MAX {
            return Err(EngineError::CounterOverflow);
        }
        current = fused_odd_step(&current);
        multiplies = multiplies + 1;
    }
    proof {
        lemma_climb_on_orbit(v, multiplies as nat);
    }
    let ghost peak = value_of(current);
    let ghost zeros = low_zeros(peak);
    let mut halvings: u64 = 0;
    proof {
        lemma2_to64();
        lemma_low_zeros_divides(peak);
        assert(peak / 1 == peak);
    }
    while is_even(&current)
        invariant
            v == value_of(*value),
            multiplies == odd_run(v),
            peak == climb(v, multiplies as nat),
            peak >= 1,
            zeros == low_zeros(peak),
            halvings <= zeros,
            peak % pow2(halvings as nat) == 0,
            value_of(current) == peak / pow2(halvings as nat),
        decreases u64::MAX - halvings,
    {
        proof {
            if halvings == zeros {
                lemma_low_zeros_divides(peak);
            }
        }
        if halvings == u64::MAX {
            return Err(EngineError::CounterOverflow);
        }
        proof {
            let h = halvings as nat;
            lemma2_to64();
            lemma_pow2_pos(h);
            vstd::arithmetic::power2::lemma_pow2_unfold(h + 1);
            crate::orbit::lemma_double_of_quotient(peak, pow2(h));
        }
        current = shift_right(&current, 1);
        halvings = halvings + 1;
    }
    proof {
        lemma_pow2_pos(halvings as nat);
        crate::orbit::lemma_quotient_positive(peak, pow2(halvings as nat));
        lemma_low_zeros_is(peak, halvings as nat);
    }
    match multiplies.checked_add(halvings) {
        Some(divides) => Ok(Advance { value: current, multiplies, divides }),
        None => Err(EngineError::CounterOverflow),
    }
}

fn advance_optimum(value: &BigUint) -> (r: Result<Advance, EngineError>)
    requires
        value_of(*value) >= 1,
    ensures
        r is Ok <==> leap(Algorithm::Optimum, value_of(*value)).divides <= u64::MAX,
        r matches Ok(a) ==> a@ == leap(Algorithm::Optimum, value_of(*value)),
        r matches Err(e) ==> e == EngineError::CounterOverflow,
{
    if is_even(value) {
        match trailing_zeros(value) {
            Some(zeros) => {
                proof {
                    lemma_low_zeros_is(value_of(*value), zeros as nat);
                }
                Ok(Advance { value: shift_right(value, zeros), multiplies: 0, divides: zeros })
            },
            None => Err(EngineError::CounterOverflow),
        }
    } else {
        let half = fused_odd_step(value);
        match trailing_zeros(&half) {
            Some(zeros) => {
                proof {
                    lemma_low_zeros_is(value_of(half), zeros as nat);
                }
                match zeros.checked_add(1) {
                    Some(divides) => Ok(
                        Advance { value: shift_right(&half, zeros), multiplies: 1, divides },
                    ),
                    None => Err(EngineError::CounterOverflow),
                }
            },
            None => Err(EngineError::CounterOverflow),
        }
    }
}

} // verus!
