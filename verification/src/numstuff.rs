//! Integer logarithms with floor semantics.
use vstd::arithmetic::power::pow;
use vstd::prelude::*;

verus! {

/// The number of times `x` can be divided by `base` before it drops below
/// `base`: the floor of the logarithm of `x` to `base`, and 0 where that
/// logarithm is not defined.
pub open spec fn floor_log(x: int, base: int) -> nat
    decreases x,
    via floor_log_decreases
{
    if base <= 1 || x < base {
        0
    } else {
        1 + floor_log(x / base, base)
    }
}

#[via_fn]
proof fn floor_log_decreases(x: int, base: int) {
    if !(base <= 1 || x < base) {
        assert(x / base < x) by (nonlinear_arith)
            requires
                base > 1,
                x >= base,
        ;
    }
}

/// `floor_log(x, base)` is the one exponent `n` with
/// `base^n <= x < base^(n + 1)`.
pub proof fn lemma_floor_log_bounds(x: int, base: int)
    requires
        x > 0,
        base > 1,
    ensures
        pow(base, floor_log(x, base)) <= x < pow(base, floor_log(x, base) + 1),
    decreases x,
{
    reveal_with_fuel(pow, 2);
    if x < base {
        assert(pow(base, 0) == 1);
        assert(pow(base, 1) == base * pow(base, 0));
    } else {
        let q = x / base;
        let n = floor_log(q, base);
        assert(0 < q < x && q * base <= x < (q + 1) * base) by (nonlinear_arith)
            requires
                base > 1,
                x >= base,
                q == x / base,
        ;
        lemma_floor_log_bounds(q, base);
        assert(pow(base, n + 1) == base * pow(base, n));
        assert(pow(base, n + 2) == base * pow(base, (n + 1) as nat));
        assert(base * pow(base, n) <= x) by (nonlinear_arith)
            requires
                pow(base, n) <= q,
                q * base <= x,
                base > 1,
        ;
        assert(x < base * pow(base, (n + 1) as nat)) by (nonlinear_arith)
            requires
                q + 1 <= pow(base, (n + 1) as nat),
                x < (q + 1) * base,
                base > 1,
        ;
    }
}

/// An exponent that brackets `x` between two neighbouring powers of `base`
/// is the floor logarithm.
pub proof fn lemma_floor_log_unique(x: int, base: int, n: nat)
    requires
        base > 1,
        pow(base, n) <= x < pow(base, n + 1),
    ensures
        floor_log(x, base) == n,
{
    vstd::arithmetic::power::lemma_pow_positive(base, n);
    lemma_floor_log_bounds(x, base);
    let m = floor_log(x, base);
    if m < n {
        vstd::arithmetic::power::lemma_pow_increases(base as nat, m + 1, n);
    } else if n < m {
        vstd::arithmetic::power::lemma_pow_increases(base as nat, n + 1, m);
    }
}

/// The floor logarithm never exceeds its argument.
proof fn lemma_floor_log_small(x: int, base: int)
    requires
        x >= 0,
    ensures
        floor_log(x, base) <= x,
    decreases x,
{
    if !(base <= 1 || x < base) {
        let q = x / base;
        assert(0 <= q && 1 + q <= x) by (nonlinear_arith)
            requires
                base > 1,
                x >= base,
                q == x / base,
        ;
        lemma_floor_log_small(q, base);
    }
}

/// The floor of the logarithm of `this` to `base`.
///
/// `None` exactly where the logarithm is not defined: for a number that is
/// zero or negative, and for a base below 2.
pub fn checked_log(this: i64, base: i64) -> (r: Option<i64>)
    ensures
        r is None <==> (this <= 0 || base <= 1),
        r matches Some(n) ==> {
            &&& n == floor_log(this as int, base as int)
            &&& pow(base as int, n as nat) <= this < pow(base as int, (n + 1) as nat)
        },
{
    if this <= 0 || base <= 1 {
        None
    } else {
        let mut n: i64 = 0;
        let mut r: i64 = this;
        proof {
            lemma_floor_log_small(this as int, base as int);
        }
        while r >= base
            invariant
                base > 1,
                0 < r <= this,
                0 <= n,
                n + floor_log(r as int, base as int) == floor_log(this as int, base as int),
                floor_log(this as int, base as int) <= this,
            decreases r,
        {
            assert(0 < r / base < r) by (nonlinear_arith)
                requires
                    base > 1,
                    r >= base,
            ;
            r = r / base;
            n = n + 1;
        }
        proof {
            lemma_floor_log_bounds(this as int, base as int);
        }
        Some(n)
    }
}

/// The floor of the decimal logarithm of `this`, and 0 for a number that
/// has none.
pub fn log10(this: i64) -> (r: i64)
    ensures
        r == floor_log(this as int, 10),
        this <= 0 ==> r == 0,
        this > 0 ==> pow(10, r as nat) <= this < pow(10, (r + 1) as nat),
        0 <= r <= 18,
{
    match checked_log(this, 10) {
        Some(n) => {
            proof {
                lemma_decimal_digits(this as int);
            }
            n
        },
        None => 0,
    }
}

/// A 64-bit number has at most 19 decimal digits.
proof fn lemma_decimal_digits(x: int)
    requires
        0 < x <= i64::MAX,
    ensures
        floor_log(x, 10) <= 18,
{
    lemma_floor_log_bounds(x, 10);
    let n = floor_log(x, 10);
    if n >= 19 {
        vstd::arithmetic::power::lemma_pow_increases(10, 19, n);
        reveal_with_fuel(pow, 20);
        assert(pow(10, 19) == 10_000_000_000_000_000_000int);
    }
}

} // verus!
