//! Fixed-point arithmetic in basis points.
use vstd::prelude::*;
use vstd::arithmetic::div_mod::lemma_fundamental_div_mod_converse;

verus! {

/// One whole, in basis points.
pub const BPS: u128 = 10_000;

/// Quotient and remainder of `a * b` by `d`, the product taken without
/// truncation. `None` when the quotient does not fit in 128 bits.
///
/// The product itself is never formed. The bits of `b` are taken one by
/// one, from the lowest; for each, `a * 2^i` is at hand as a quotient and a
/// remainder by `d`, and is added to the result where the bit is set.
pub fn mul_div_rem(a: u128, b: u128, d: u128) -> (r: Option<(u128, u128)>)
    requires
        d > 0,
    ensures
        match r {
            Some((q, m)) => q == (a * b) / (d as int) && m == (a * b) % (d as int),
            None => (a * b) / (d as int) > u128::MAX,
        },
{
    // a * 2^i == tq * d + tr, for the bit i that `rest` starts at
    let mut tq: u128 = a / d;
    let mut tr: u128 = a % d;
    // a * low == q * d + r, for the bits of b below i
    let mut q: u128 = 0;
    let mut r: u128 = 0;
    let mut rest: u128 = b;
    let ghost mut pow: int = 1;
    let ghost mut low: int = 0;
    proof {
        lemma_split(a as int, d as int);
    }
    while rest > 0
        invariant
            d > 0,
            pow >= 1,
            low >= 0,
            b == rest * pow + low,
            a * pow == tq * d + tr,
            tr < d,
            a * low == q * d + r,
            r < d,
        decreases rest,
    {
        proof {
            lemma_peel_bit(rest as int, pow);
        }
        let ghost upper: int = (rest / 2) * (2 * pow);
        let ghost pow0: int = pow;
        if rest % 2 == 1 {
            // r + tr, reduced modulo d without leaving 128 bits
            let carry: u128 = if r >= d - tr {
                1
            } else {
                0
            };
            let r2: u128 = if r >= d - tr {
                r - (d - tr)
            } else {
                r + tr
            };
            proof {
                lemma_accumulate(
                    a as int,
                    d as int,
                    low,
                    pow,
                    q as int,
                    r as int,
                    tq as int,
                    tr as int,
                    carry as int,
                    r2 as int,
                );
                low = low + pow;
                lemma_partial_product(a as int, b as int, d as int, low, upper, q + tq + carry, r2 as int);
            }
            if q > u128::MAX - tq || q + tq > u128::MAX - carry {
                return None;
            }
            q = q + tq + carry;
            r = r2;
        }
        rest = rest / 2;
        if rest > 0 {
            let carry: u128 = if tr >= d - tr {
                1
            } else {
                0
            };
            let t2: u128 = if tr >= d - tr {
                tr - (d - tr)
            } else {
                tr + tr
            };
            proof {
                lemma_accumulate(
                    a as int,
                    d as int,
                    pow,
                    pow,
                    tq as int,
                    tr as int,
                    tq as int,
                    tr as int,
                    carry as int,
                    t2 as int,
                );
                lemma_partial_product(
                    a as int,
                    b as int,
                    d as int,
                    2 * pow,
                    upper - 2 * pow + low,
                    tq + tq + carry,
                    t2 as int,
                );
                pow = 2 * pow;
            }
            if tq > u128::MAX - tq || tq + tq > u128::MAX - carry {
                return None;
            }
            tq = tq + tq + carry;
            tr = t2;
        }
        assert(rest * pow == upper) by (nonlinear_arith)
            requires
                upper == rest * (2 * pow0),
                rest == 0 || pow == 2 * pow0,
        {
        }
    }
    proof {
        assert(rest * pow == 0) by (nonlinear_arith)
            requires
                rest == 0,
        {
        }
        lemma_fundamental_div_mod_converse(a * b, d as int, q as int, r as int);
    }
    Some((q, r))
}

/// The lowest bit of `rest` leaves the weighted sum `rest * pow`.
proof fn lemma_peel_bit(rest: int, pow: int)
    requires
        rest >= 0,
        pow >= 1,
    ensures
        rest % 2 == 1 ==> rest * pow == (rest / 2) * (2 * pow) + pow,
        rest % 2 == 0 ==> rest * pow == (rest / 2) * (2 * pow),
        (rest / 2) * (2 * pow) >= 0,
        rest / 2 >= 1 ==> (rest / 2) * (2 * pow) >= 2 * pow,
        rest / 2 == 0 ==> (rest / 2) * (2 * pow) == 0,
{
    let h = rest / 2;
    assert(rest == 2 * h + rest % 2);
    assert((2 * h + 1) * pow == h * (2 * pow) + pow) by (nonlinear_arith);
    assert((2 * h) * pow == h * (2 * pow)) by (nonlinear_arith);
    assert(h * (2 * pow) >= 0) by (nonlinear_arith)
        requires
            h >= 0,
            pow >= 1,
    {
    }
    assert(h >= 1 ==> h * (2 * pow) >= 2 * pow) by (nonlinear_arith)
        requires
            pow >= 1,
    {
    }
    assert(h == 0 ==> h * (2 * pow) == 0) by (nonlinear_arith);
}

/// `a` splits into its quotient and remainder by `d`.
proof fn lemma_split(a: int, d: int)
    requires
        a >= 0,
        d > 0,
    ensures
        a * 1 == (a / d) * d + a % d,
        0 <= a % d < d,
        a * 0 == 0 * d + 0,
{
    vstd::arithmetic::div_mod::lemma_fundamental_div_mod(a, d);
    assert((a / d) * d == d * (a / d)) by (nonlinear_arith);
}

/// Adding two products that are split by `d`, with the remainders folded
/// back below `d`.
proof fn lemma_accumulate(
    a: int,
    d: int,
    x: int,
    y: int,
    q1: int,
    r1: int,
    q2: int,
    r2: int,
    carry: int,
    r: int,
)
    requires
        d > 0,
        a * x == q1 * d + r1,
        a * y == q2 * d + r2,
        0 <= r1 < d,
        0 <= r2 < d,
        carry == (if r1 >= d - r2 { 1int } else { 0int }),
        r == (if r1 >= d - r2 { r1 - (d - r2) } else { r1 + r2 }),
    ensures
        a * (x + y) == (q1 + q2 + carry) * d + r,
        0 <= r < d,
{
    assert(a * (x + y) == a * x + a * y) by (nonlinear_arith);
    assert((q1 + q2 + carry) * d == q1 * d + q2 * d + carry * d) by (nonlinear_arith);
}

/// A part of the product bounds the whole quotient from below.
proof fn lemma_partial_product(a: int, b: int, d: int, part: int, others: int, q: int, r: int)
    requires
        a >= 0,
        d > 0,
        part >= 0,
        others >= 0,
        b == part + others,
        a * part == q * d + r,
        0 <= r < d,
    ensures
        q <= (a * b) / d,
{
    lemma_fundamental_div_mod_converse(a * part, d, q, r);
    assert(a * part <= a * b) by (nonlinear_arith)
        requires
            a >= 0,
            others >= 0,
            b == part + others,
    {
    }
    vstd::arithmetic::div_mod::lemma_div_is_ordered(a * part, a * b, d);
}

} // verus!
