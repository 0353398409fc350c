//! The Collatz map on the natural numbers and what is true of its orbits.
//!
//! Everything here is ghost code: the map itself, the orbit of a
//! seed, the count of odd steps along it, and the lemmas that let an
//! algorithm take several steps of the map at once.

use vstd::arithmetic::power2::{lemma_pow2_pos, lemma_pow2_unfold, pow2};
use vstd::prelude::*;

verus! {

/// One application of the map: an even number is halved, an odd number `n`
/// becomes `3n + 1`.
pub open spec fn step(n: nat) -> nat {
    if n % 2 == 0 {
        n / 2
    } else {
        3 * n + 1
    }
}

/// The value reached from `n` after `k` applications of the map.
pub open spec fn orbit(n: nat, k: nat) -> nat
    decreases k,
{
    if k == 0 {
        n
    } else {
        step(orbit(n, (k - 1) as nat))
    }
}

/// How many of the first `k` applications of the map, starting at `n`, were
/// made on an odd number.
pub open spec fn odd_steps(n: nat, k: nat) -> nat
    decreases k,
{
    if k == 0 {
        0
    } else {
        odd_steps(n, (k - 1) as nat) + if orbit(n, (k - 1) as nat) % 2 == 1 {
            1nat
        } else {
            0nat
        }
    }
}

/// How many of the first `k` applications of the map, starting at `n`, were
/// halvings.
pub open spec fn even_steps(n: nat, k: nat) -> nat {
    (k - odd_steps(n, k)) as nat
}

/// `k` is the first index at which the orbit of `n` is 1.
pub open spec fn hits_one_at(n: nat, k: nat) -> bool {
    &&& orbit(n, k) == 1
    &&& forall|j: nat| j < k ==> orbit(n, j) != 1
}

/// The orbit of `n` is 1 at some index up to `limit`.
pub open spec fn reaches_one_within(n: nat, limit: nat) -> bool {
    exists|k: nat| k <= limit && orbit(n, k) == 1
}

/// The first index at which the orbit of `n` is 1, where there is one.
pub open spec fn first_hit(n: nat) -> nat {
    choose|k: nat| hits_one_at(n, k)
}

/// At index `t` the orbit of `n` comes back to a value above 1 that it has
/// held before and that nothing before `t` was smaller than: the orbit has
/// closed a cycle through its own minimum.
pub open spec fn cycle_at(n: nat, t: nat) -> bool {
    &&& orbit(n, t) > 1
    &&& exists|j: nat| j < t && orbit(n, j) == orbit(n, t)
    &&& forall|i: nat| i < t ==> orbit(n, t) <= orbit(n, i)
}

/// The orbit of `n` closes a cycle through its minimum at some index up to
/// `limit`.
pub open spec fn cycles_within(n: nat, limit: nat) -> bool {
    exists|t: nat| t <= limit && cycle_at(n, t)
}

/// The orbit of `n` holds an odd value below `n` at some index from 1 up to
/// `limit`.
pub open spec fn drops_within(n: nat, limit: nat) -> bool {
    exists|k: nat| 1 <= k <= limit && orbit(n, k) % 2 == 1 && orbit(n, k) < n
}

/// The map never leaves the positive numbers.
pub proof fn lemma_orbit_positive(n: nat, k: nat)
    requires
        n >= 1,
    ensures
        orbit(n, k) >= 1,
    decreases k,
{
    if k > 0 {
        lemma_orbit_positive(n, (k - 1) as nat);
    }
}

/// Walking `a` steps and then `b` more is walking `a + b` steps, and the odd
/// steps add up.
pub proof fn lemma_orbit_split(n: nat, a: nat, b: nat)
    ensures
        orbit(n, a + b) == orbit(orbit(n, a), b),
        odd_steps(n, a + b) == odd_steps(n, a) + odd_steps(orbit(n, a), b),
    decreases b,
{
    if b > 0 {
        lemma_orbit_split(n, a, (b - 1) as nat);
        assert((a + b - 1) as nat == a + (b - 1) as nat);
    }
}

/// At most one index is the first at which the orbit is 1.
pub proof fn lemma_first_hit_unique(n: nat, k: nat)
    requires
        hits_one_at(n, k),
    ensures
        first_hit(n) == k,
        reaches_one_within(n, k),
{
    let f = first_hit(n);
    assert(hits_one_at(n, f));
    if f < k {
        assert(orbit(n, f) != 1);
    } else if k < f {
        assert(orbit(n, k) != 1);
    }
}

/// An even number that the orbit holds is never the close of a cycle: the
/// orbit halved that number the first time it held it.
pub proof fn lemma_no_cycle_at_even(n: nat, t: nat)
    requires
        n >= 1,
        orbit(n, t) % 2 == 0,
    ensures
        !cycle_at(n, t),
{
    if cycle_at(n, t) {
        let j = choose|j: nat| j < t && orbit(n, j) == orbit(n, t);
        lemma_orbit_positive(n, j);
        assert(orbit(n, j + 1) == step(orbit(n, j)));
        if j + 1 < t {
            assert(orbit(n, t) <= orbit(n, j + 1));
        }
    }
}

/// An orbit that has closed a cycle through its minimum never holds 1.
pub proof fn lemma_cycle_never_one(n: nat, t: nat, k: nat)
    requires
        n >= 1,
        cycle_at(n, t),
    ensures
        orbit(n, k) != 1,
    decreases k,
{
    if k < t {
        assert(orbit(n, t) <= orbit(n, k));
    } else if k > t {
        let j = choose|j: nat| j < t && orbit(n, j) == orbit(n, t);
        let back = (k - (t - j)) as nat;
        lemma_orbit_split(n, t, (k - t) as nat);
        lemma_orbit_split(n, j, (k - t) as nat);
        assert(t + (k - t) as nat == k);
        assert(j + (k - t) as nat == back);
        lemma_cycle_never_one(n, t, back);
    }
}

/// Where `2^a` divides a positive `v`, the next `a` steps from `v` are all
/// halvings: the orbit holds `v / 2^j` after `j` of them, which is even for
/// every `j < a`, and no step among them is odd.
pub proof fn lemma_halving_run(v: nat, a: nat)
    requires
        v >= 1,
        v % pow2(a) == 0,
    ensures
        orbit(v, a) == v / pow2(a),
        odd_steps(v, a) == 0,
        forall|j: nat| j < a ==> #[trigger] orbit(v, j) % 2 == 0,
        forall|j: nat| j < a ==> #[trigger] orbit(v, j) > v / pow2(a),
        forall|j: nat| 0 < j <= a ==> #[trigger] orbit(v, j) < v,
    decreases a,
{
    lemma_pow2_pos(a);
    if a == 0 {
        assert(pow2(0) == 1) by {
            vstd::arithmetic::power2::lemma2_to64();
        }
        assert(v / 1 == v);
    } else {
        let b = (a - 1) as nat;
        let p = pow2(b);
        lemma_pow2_pos(b);
        lemma_pow2_unfold(a);
        assert(pow2(a) == 2 * p);
        lemma_divisible_by_double(v, p);
        lemma_halving_run(v, b);
        let w = v / p;
        assert(orbit(v, b) == w);
        assert(w % 2 == 0);
        assert(orbit(v, a) == step(w));
        assert(w / 2 == v / pow2(a));
        assert(w >= 1) by {
            lemma_quotient_positive(v, p);
        }
        assert forall|j: nat| j < a implies #[trigger] orbit(v, j) % 2 == 0 by {
            if j < b {
            }
        }
        assert forall|j: nat| j < a implies #[trigger] orbit(v, j) > v / pow2(a) by {
            if j < b {
                assert(orbit(v, j) > w);
            }
        }
        assert forall|j: nat| 0 < j <= a implies #[trigger] orbit(v, j) < v by {
            if j <= b {
            } else {
                assert(w <= v) by {
                    lemma_quotient_at_most(v, p);
                }
            }
        }
    }
}

/// The number of low binary digits of `n` that are zero; 0 for `n == 0`.
pub open spec fn low_zeros(n: nat) -> nat
    decreases n,
{
    if n == 0 || n % 2 == 1 {
        0
    } else {
        1 + low_zeros(n / 2)
    }
}

/// `2^low_zeros(v)` divides a positive `v`, and the quotient is odd.
pub proof fn lemma_low_zeros_divides(v: nat)
    requires
        v >= 1,
    ensures
        v % pow2(low_zeros(v)) == 0,
        (v / pow2(low_zeros(v))) % 2 == 1,
        v / pow2(low_zeros(v)) >= 1,
    decreases v,
{
    vstd::arithmetic::power2::lemma2_to64();
    if v % 2 == 1 {
        assert(v / 1 == v);
    } else {
        let h = v / 2;
        let a = low_zeros(h);
        lemma_low_zeros_divides(h);
        lemma_pow2_pos(a);
        lemma_pow2_unfold(a + 1);
        lemma_double_of_divisible(v, pow2(a));
    }
}

/// The only `k` such that `2^k` divides a positive `v` with an odd quotient
/// is `low_zeros(v)`.
pub proof fn lemma_low_zeros_is(v: nat, k: nat)
    requires
        v >= 1,
        v % pow2(k) == 0,
        (v / pow2(k)) % 2 == 1,
    ensures
        low_zeros(v) == k,
    decreases k,
{
    vstd::arithmetic::power2::lemma2_to64();
    if k == 0 {
        assert(v / 1 == v);
    } else {
        let b = (k - 1) as nat;
        lemma_pow2_pos(b);
        lemma_pow2_unfold(k);
        lemma_half_of_divisible(v, pow2(b));
        lemma_low_zeros_is(v / 2, b);
    }
}

/// Multiplying by three adds no low zero.
pub proof fn lemma_low_zeros_triple(m: nat)
    requires
        m >= 1,
    ensures
        low_zeros(3 * m) == low_zeros(m),
    decreases m,
{
    if m % 2 == 0 {
        lemma_low_zeros_triple(m / 2);
        assert((3 * m) / 2 == 3 * (m / 2));
    }
}

/// A number that `2p` divides is even, its half is divisible by `p`, and
/// dividing the half by `p` divides by `2p`.
pub proof fn lemma_half_of_divisible(v: nat, p: nat)
    requires
        p >= 1,
        v % (2 * p) == 0,
    ensures
        v % 2 == 0,
        (v / 2) % p == 0,
        (v / 2) / p == v / (2 * p),
{
    let q = v / (2 * p);
    assert(v == (2 * p) * q) by {
        vstd::arithmetic::div_mod::lemma_fundamental_div_mod(v as int, (2 * p) as int);
    }
    assert(v == 2 * (q * p)) by (nonlinear_arith)
        requires
            v == (2 * p) * q,
    ;
    assert(v / 2 == q * p + 0);
    vstd::arithmetic::div_mod::lemma_fundamental_div_mod_converse(
        (v / 2) as int,
        p as int,
        q as int,
        0,
    );
}

/// An even number whose half is divisible by `p` is divisible by `2p`, with
/// the same quotient as its half has by `p`.
pub proof fn lemma_double_of_divisible(v: nat, p: nat)
    requires
        p >= 1,
        v % 2 == 0,
        (v / 2) % p == 0,
    ensures
        v % (2 * p) == 0,
        v / (2 * p) == (v / 2) / p,
{
    let q = (v / 2) / p;
    assert(v / 2 == p * q) by {
        vstd::arithmetic::div_mod::lemma_fundamental_div_mod((v / 2) as int, p as int);
    }
    assert(v == q * (2 * p) + 0) by (nonlinear_arith)
        requires
            v == 2 * (v / 2),
            v / 2 == p * q,
    ;
    vstd::arithmetic::div_mod::lemma_fundamental_div_mod_converse(
        v as int,
        (2 * p) as int,
        q as int,
        0,
    );
}

/// A number that `2p` divides is divisible by `p`, its quotient by `p` is
/// even, and halving that quotient divides by `2p`.
pub proof fn lemma_divisible_by_double(v: nat, p: nat)
    requires
        p >= 1,
        v % (2 * p) == 0,
    ensures
        v % p == 0,
        (v / p) % 2 == 0,
        (v / p) / 2 == v / (2 * p),
{
    let q = v / (2 * p);
    assert(v == (2 * p) * q) by {
        vstd::arithmetic::div_mod::lemma_fundamental_div_mod(v as int, (2 * p) as int);
    }
    assert(v == (2 * q) * p + 0) by (nonlinear_arith)
        requires
            v == (2 * p) * q,
    ;
    assert(v % p == 0 && v / p == 2 * q) by {
        vstd::arithmetic::div_mod::lemma_fundamental_div_mod_converse(
            v as int,
            p as int,
            (2 * q) as int,
            0,
        );
    }
}

/// Where `p` divides `v` and the quotient is even, `2p` divides `v`, and
/// halving the quotient divides by `2p`.
pub proof fn lemma_double_of_quotient(v: nat, p: nat)
    requires
        p >= 1,
        v % p == 0,
        (v / p) % 2 == 0,
    ensures
        v % (2 * p) == 0,
        (v / p) / 2 == v / (2 * p),
{
    let q = v / p;
    let h = q / 2;
    assert(v == p * q) by {
        vstd::arithmetic::div_mod::lemma_fundamental_div_mod(v as int, p as int);
    }
    assert(v == h * (2 * p) + 0) by (nonlinear_arith)
        requires
            v == p * q,
            q == 2 * h,
    ;
    vstd::arithmetic::div_mod::lemma_fundamental_div_mod_converse(
        v as int,
        (2 * p) as int,
        h as int,
        0,
    );
}

/// The quotient of a positive number by one of its divisors is positive.
pub proof fn lemma_quotient_positive(v: nat, p: nat)
    requires
        v >= 1,
        p >= 1,
        v % p == 0,
    ensures
        v / p >= 1,
{
    vstd::arithmetic::div_mod::lemma_fundamental_div_mod(v as int, p as int);
    if v / p == 0 {
        assert(p * (v / p) == 0) by (nonlinear_arith)
            requires
                v / p == 0,
        ;
    }
}

/// Dividing by a positive number does not make a number larger.
pub proof fn lemma_quotient_at_most(v: nat, p: nat)
    requires
        p >= 1,
    ensures
        v / p <= v,
{
    vstd::arithmetic::div_mod::lemma_div_is_ordered_by_denominator(v as int, 1, p as int);
}

} // verus!
