use vstd::prelude::*;

use vstd::arithmetic::div_mod::{
    lemma_div_is_ordered, lemma_div_multiples_vanish, lemma_fundamental_div_mod,
};
use vstd::arithmetic::mul::lemma_mul_is_distributive_add;

verus! {

/// `10^d`.
pub open spec fn pow10(d: nat) -> nat
    decreases d,
{
    if d == 0 {
        1
    } else {
        10 * pow10((d - 1) as nat)
    }
}

pub proof fn lemma_pow10_positive(d: nat)
    ensures
        pow10(d) >= 1,
    decreases d,
{
    if d > 0 {
        lemma_pow10_positive((d - 1) as nat);
    }
}

/// `10^d` as a `u128`, for `d ≤ 18`.
pub fn units_for_decimals(d: u8) -> (r: u128)
    requires
        d <= 18,
    ensures
        r as nat == pow10(d as nat),
        1 <= r <= 1_000_000_000_000_000_000u128,
{
    let mut r: u128 = 1;
    let mut i: u8 = 0;
    while i < d
        invariant
            i <= d,
            d <= 18,
            r as nat == pow10(i as nat),
            r <= 1_000_000_000_000_000_000u128,
        decreases d - i,
    {
        proof {
            assert(pow10((i + 1) as nat) == 10 * pow10(i as nat));
            lemma_pow10_bound(i as nat);
        }
        r = r * 10;
        i = i + 1;
    }
    proof {
        lemma_pow10_positive(d as nat);
    }
    r
}

proof fn lemma_pow10_monotone(i: nat, j: nat)
    requires
        i <= j,
    ensures
        pow10(i) <= pow10(j),
    decreases j - i,
{
    if i < j {
        lemma_pow10_monotone(i, (j - 1) as nat);
    }
}

proof fn lemma_pow10_bound(i: nat)
    requires
        i < 18,
    ensures
        10 * pow10(i) <= 1_000_000_000_000_000_000,
{
    lemma_pow10_monotone(i + 1, 18);
    assert(pow10(18) == 1_000_000_000_000_000_000) by {
        reveal_with_fuel(pow10, 19);
    }
}

/// Whole units are super-additive: splitting an amount never creates a unit.
pub proof fn lemma_whole_units_split(y: nat, a: nat, u: nat)
    requires
        u > 0,
    ensures
        (y + a) / u >= y / u + a / u,
{
    let q1 = (y / u) as int;
    let q2 = (a / u) as int;
    lemma_fundamental_div_mod(y as int, u as int);
    lemma_fundamental_div_mod(a as int, u as int);
    lemma_mul_is_distributive_add(u as int, q1, q2);
    assert(u * (q1 + q2) <= y + a);
    lemma_div_is_ordered(u * (q1 + q2), (y + a) as int, u as int);
    lemma_div_multiples_vanish(q1 + q2, u as int);
}

/// A count of whole units that fits in an amount fits in its whole units.
pub proof fn lemma_whole_units_bound(x: nat, t: nat, u: nat)
    requires
        u > 0,
        x * u <= t,
    ensures
        x <= t / u,
{
    lemma_div_is_ordered((x * u) as int, t as int, u as int);
    lemma_div_multiples_vanish(x as int, u as int);
    assert(u * x == x * u) by (nonlinear_arith);
}

} // verus!
