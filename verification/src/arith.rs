//! Alignment arithmetic shared by the allocators.

use vstd::prelude::*;

verus! {

/// The smallest multiple of `a` that is at least `v` (for `a > 0`).
pub open spec fn round_up(v: int, a: int) -> int {
    (v + a - 1) - (v + a - 1) % a
}

/// The largest multiple of `a` that is at most `v` (for `a > 0`).
pub open spec fn round_down(v: int, a: int) -> int {
    v - v % a
}

/// `x` is a power of two.
pub open spec fn is_pow2(x: nat) -> bool
    decreases x,
{
    if x == 0 {
        false
    } else if x == 1 {
        true
    } else {
        x % 2 == 0 && is_pow2(x / 2)
    }
}

pub proof fn lemma_round_up(v: int, a: int)
    requires
        a > 0,
    ensures
        round_up(v, a) % a == 0,
        v <= round_up(v, a) < v + a,
        v % a == 0 ==> round_up(v, a) == v,
{
    vstd::arithmetic::div_mod::lemma_fundamental_div_mod(v + a - 1, a);
    vstd::arithmetic::div_mod::lemma_mod_bound(v + a - 1, a);
    vstd::arithmetic::div_mod::lemma_mod_multiples_basic((v + a - 1) / a, a);
    if v % a == 0 {
        vstd::arithmetic::div_mod::lemma_fundamental_div_mod(v, a);
        vstd::arithmetic::div_mod::lemma_mod_multiples_vanish(v / a, a - 1, a);
        vstd::arithmetic::div_mod::lemma_small_mod((a - 1) as nat, a as nat);
        assert(v + a - 1 == a * (v / a) + (a - 1));
        vstd::arithmetic::mul::lemma_mul_is_commutative(a, v / a);
    }
    assert((v + a - 1) - (v + a - 1) % a == a * ((v + a - 1) / a));
    vstd::arithmetic::mul::lemma_mul_is_commutative(a, (v + a - 1) / a);
}

pub proof fn lemma_round_down(v: int, a: int)
    requires
        a > 0,
        v >= 0,
    ensures
        round_down(v, a) % a == 0,
        v - a < round_down(v, a) <= v,
        round_down(v, a) >= 0,
        v % a == 0 ==> round_down(v, a) == v,
{
    vstd::arithmetic::div_mod::lemma_fundamental_div_mod(v, a);
    vstd::arithmetic::div_mod::lemma_mod_bound(v, a);
    vstd::arithmetic::div_mod::lemma_mod_multiples_basic(v / a, a);
    vstd::arithmetic::mul::lemma_mul_is_commutative(a, v / a);
}

/// A multiple of `k * a` is a multiple of `a`.
pub proof fn lemma_mod_of_multiple(x: int, k: int, a: int)
    requires
        a > 0,
        k > 0,
        x % (k * a) == 0,
    ensures
        x % a == 0,
{
    vstd::arithmetic::mul::lemma_mul_strictly_positive(k, a);
    vstd::arithmetic::div_mod::lemma_fundamental_div_mod(x, k * a);
    vstd::arithmetic::mul::lemma_mul_is_associative(x / (k * a), k, a);
    vstd::arithmetic::mul::lemma_mul_is_commutative(k * a, x / (k * a));
    vstd::arithmetic::div_mod::lemma_mod_multiples_basic((x / (k * a)) * k, a);
}

/// The rounded value is a multiple of every divisor of the alignment.
pub proof fn lemma_multiple_sum(x: int, y: int, a: int)
    requires
        a > 0,
        x % a == 0,
        y % a == 0,
    ensures
        (x + y) % a == 0,
        (x - y) % a == 0,
{
    vstd::arithmetic::div_mod::lemma_add_mod_noop(x, y, a);
    vstd::arithmetic::div_mod::lemma_sub_mod_noop(x, y, a);
    vstd::arithmetic::div_mod::lemma_mod_self_0(a);
    assert(0int % a == 0) by {
        vstd::arithmetic::div_mod::lemma_small_mod(0, a as nat);
    }
}

/// `value` rounded up to a multiple of `alignment`, or `None` when the
/// intermediate sum overflows.
pub fn align_up(value: u64, alignment: u64) -> (r: Option<u64>)
    requires
        alignment > 0,
    ensures
        match r {
            Some(x) => value + alignment - 1 <= u64::MAX && x == round_up(value as int, alignment as int),
            None => value + alignment - 1 > u64::MAX,
        },
{
    match value.checked_add(alignment - 1) {
        Some(rounded) => Some(rounded - rounded % alignment),
        None => None,
    }
}

/// `value` rounded down to a multiple of `alignment`.
pub fn align_down(value: u64, alignment: u64) -> (r: u64)
    requires
        alignment > 0,
    ensures
        r == round_down(value as int, alignment as int),
{
    proof {
        vstd::arithmetic::div_mod::lemma_mod_decreases(value as nat, alignment as nat);
    }
    value - value % alignment
}

/// Whether `x` is a power of two.
pub fn is_power_of_two(x: u64) -> (r: bool)
    ensures
        r == is_pow2(x as nat),
{
    if x == 0 {
        return false;
    }
    let mut v = x;
    while v > 1 && v % 2 == 0
        invariant
            v > 0,
            is_pow2(v as nat) == is_pow2(x as nat),
        decreases v,
    {
        v = v / 2;
    }
    v == 1
}

} // verus!
