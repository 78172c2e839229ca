//! Fixed-point scalar arithmetic with explicit rounding.
//!
//! A scalar is an `i64` that counts millionths of a unit. Products and
//! quotients are formed in `i128`, rounded in a stated direction and brought
//! back into `[-LIMIT, LIMIT]` by saturation.

use vstd::prelude::*;

verus! {

/// The raw value of the scalar 1.
pub const ONE: i64 = 1_000_000;

/// The largest magnitude a stored coordinate may have (a billion units).
pub const LIMIT: i64 = 1_000_000_000_000_000;

/// Whether `v` can be stored as a coordinate without saturating.
pub open spec fn in_range(v: int) -> bool {
    -LIMIT <= v <= LIMIT
}

/// `v` brought into `[-LIMIT, LIMIT]`.
pub open spec fn saturate(v: int) -> i64 {
    if v > LIMIT {
        LIMIT
    } else if v < -LIMIT {
        (-LIMIT) as i64
    } else {
        v as i64
    }
}

/// The quotient of `a` by a positive `b`, rounded toward zero.
pub open spec fn div_toward_zero(a: int, b: int) -> int
    recommends
        b > 0,
{
    if a >= 0 {
        a / b
    } else {
        -((-a) / b)
    }
}

/// The quotient of `a` by a positive `b`, rounded away from zero.
pub open spec fn div_away_from_zero(a: int, b: int) -> int
    recommends
        b > 0,
{
    if a >= 0 {
        (a + b - 1) / b
    } else {
        -((-a + b - 1) / b)
    }
}

/// `r` is the square root of `n` rounded down.
pub open spec fn is_floor_sqrt(n: int, r: int) -> bool {
    0 <= r && r * r <= n < (r + 1) * (r + 1)
}

/// The square root of a non-negative `n`, rounded down.
pub open spec fn floor_sqrt(n: int) -> int
    recommends
        n >= 0,
{
    choose|r: int| is_floor_sqrt(n, r)
}

/// The square root of a non-negative `n`, rounded up.
pub open spec fn ceil_sqrt(n: int) -> int
    recommends
        n >= 0,
{
    let r = floor_sqrt(n);
    if r * r == n {
        r
    } else {
        r + 1
    }
}

/// Squares grow with their non-negative argument.
pub proof fn lemma_square_monotonic(a: int, b: int)
    requires
        0 <= a <= b,
    ensures
        a * a <= b * b,
{
    assert(a * a <= b * b) by (nonlinear_arith)
        requires
            0 <= a <= b,
    ;
}

/// Every non-negative number has a rounded-down square root.
pub proof fn lemma_floor_sqrt_exists(n: int)
    requires
        n >= 0,
    ensures
        is_floor_sqrt(n, floor_sqrt(n)),
    decreases n,
{
    if n == 0 {
        assert(is_floor_sqrt(0, 0));
    } else {
        lemma_floor_sqrt_exists(n - 1);
        let r = floor_sqrt(n - 1);
        if n < (r + 1) * (r + 1) {
            assert(is_floor_sqrt(n, r));
        } else {
            assert((r + 2) * (r + 2) > (r + 1) * (r + 1)) by (nonlinear_arith)
                requires
                    r >= 0,
            ;
            assert(is_floor_sqrt(n, r + 1));
        }
    }
}

/// The rounded-down square root is the only number between whose square and
/// whose successor's square `n` lies.
pub proof fn lemma_floor_sqrt_unique(n: int, r: int)
    requires
        is_floor_sqrt(n, r),
    ensures
        floor_sqrt(n) == r,
{
    let s = floor_sqrt(n);
    assert(is_floor_sqrt(n, s));
    if s < r {
        lemma_square_monotonic(s + 1, r);
    } else if r < s {
        lemma_square_monotonic(r + 1, s);
    }
}

/// The rounded-up square root is the least number whose square reaches `n`.
pub proof fn lemma_ceil_sqrt(n: int)
    requires
        n >= 0,
    ensures
        0 <= ceil_sqrt(n),
        n <= ceil_sqrt(n) * ceil_sqrt(n),
        ceil_sqrt(n) > 0 ==> (ceil_sqrt(n) - 1) * (ceil_sqrt(n) - 1) < n,
        floor_sqrt(n) <= ceil_sqrt(n) <= floor_sqrt(n) + 1,
{
    lemma_floor_sqrt_exists(n);
    let r = floor_sqrt(n);
    if r * r != n {
        assert(r * r < n);
        assert((r + 1 - 1) * (r + 1 - 1) == r * r);
    } else if r > 0 {
        assert((r - 1) * (r - 1) < r * r) by (nonlinear_arith)
            requires
                r > 0,
        ;
    }
}

/// Rounding toward zero loses less than one step and never changes sign.
pub proof fn lemma_div_toward_zero(a: int, b: int)
    requires
        b > 0,
    ensures
        a >= 0 ==> 0 <= div_toward_zero(a, b) * b <= a < div_toward_zero(a, b) * b + b,
        a <= 0 ==> 0 >= div_toward_zero(a, b) * b >= a > div_toward_zero(a, b) * b - b,
        a >= 0 ==> div_toward_zero(a, b) >= 0,
        a <= 0 ==> div_toward_zero(a, b) <= 0,
        div_toward_zero(-a, b) == -div_toward_zero(a, b),
{
    let m = if a >= 0 { a } else { -a };
    vstd::arithmetic::div_mod::lemma_fundamental_div_mod(m, b);
    vstd::arithmetic::div_mod::lemma_mod_bound(m, b);
    vstd::arithmetic::div_mod::lemma_div_pos_is_pos(m, b);
    let q = m / b;
    assert(q * b == b * q) by (nonlinear_arith);
    assert((-q) * b == -(q * b)) by (nonlinear_arith);
}

/// Rounding away from zero adds less than one step and never changes sign.
pub proof fn lemma_div_away_from_zero(a: int, b: int)
    requires
        b > 0,
    ensures
        a >= 0 ==> a <= div_away_from_zero(a, b) * b < a + b,
        a <= 0 ==> a >= div_away_from_zero(a, b) * b > a - b,
        a >= 0 ==> div_away_from_zero(a, b) >= 0,
        a <= 0 ==> div_away_from_zero(a, b) <= 0,
        div_away_from_zero(-a, b) == -div_away_from_zero(a, b),
{
    let m = if a >= 0 { a } else { -a };
    let t = m + b - 1;
    vstd::arithmetic::div_mod::lemma_fundamental_div_mod(t, b);
    vstd::arithmetic::div_mod::lemma_mod_bound(t, b);
    vstd::arithmetic::div_mod::lemma_div_pos_is_pos(t, b);
    let q = t / b;
    assert(q * b == b * q) by (nonlinear_arith);
    assert((-q) * b == -(q * b)) by (nonlinear_arith);
    if a == 0 {
        vstd::arithmetic::div_mod::lemma_basic_div(t, b);
    }
}

/// A number whose square is below the square of a non-negative bound lies
/// strictly within that bound.
pub proof fn lemma_square_strictly_below(x: int, y: int)
    requires
        x * x < y * y,
        y >= 0,
    ensures
        -y < x < y,
{
    if x >= y {
        lemma_square_monotonic(y, x);
    } else if -x >= y {
        lemma_square_monotonic(y, -x);
        assert((-x) * (-x) == x * x) by (nonlinear_arith);
    }
}

/// A quotient rounded toward zero is bounded by `m` when the dividend is
/// bounded by `m` times the divisor.
pub proof fn lemma_div_toward_zero_bound(a: int, b: int, m: int)
    requires
        b > 0,
        m >= 0,
        -(m * b) <= a <= m * b,
    ensures
        -m <= div_toward_zero(a, b) <= m,
{
    lemma_div_toward_zero(a, b);
    let q = div_toward_zero(a, b);
    if q > m {
        assert(q * b >= (m + 1) * b) by (nonlinear_arith)
            requires
                q >= m + 1,
                b > 0,
        ;
        assert((m + 1) * b == m * b + b) by (nonlinear_arith);
    } else if q < -m {
        assert(q * b <= (-m - 1) * b) by (nonlinear_arith)
            requires
                q <= -m - 1,
                b > 0,
        ;
        assert((-m - 1) * b == -(m * b) - b) by (nonlinear_arith);
    }
}

/// A quotient rounded away from zero is bounded by `m` when the dividend is
/// bounded by `m` times the divisor.
pub proof fn lemma_div_away_from_zero_bound(a: int, b: int, m: int)
    requires
        b > 0,
        m >= 0,
        -(m * b) <= a <= m * b,
    ensures
        -m <= div_away_from_zero(a, b) <= m,
{
    lemma_div_away_from_zero(a, b);
    let q = div_away_from_zero(a, b);
    if q > m {
        assert(q * b >= (m + 1) * b) by (nonlinear_arith)
            requires
                q >= m + 1,
                b > 0,
        ;
        assert((m + 1) * b == m * b + b) by (nonlinear_arith);
    } else if q < -m {
        assert(q * b <= (-m - 1) * b) by (nonlinear_arith)
            requires
                q <= -m - 1,
                b > 0,
        ;
        assert((-m - 1) * b == -(m * b) - b) by (nonlinear_arith);
    }
}

/// The magnitude of a product is bounded by the product of the bounds.
pub proof fn lemma_product_bound(a: int, b: int, ma: int, mb: int)
    requires
        -ma <= a <= ma,
        -mb <= b <= mb,
    ensures
        -(ma * mb) <= a * b <= ma * mb,
{
    assert(-(ma * mb) <= a * b <= ma * mb) by (nonlinear_arith)
        requires
            -ma <= a <= ma,
            -mb <= b <= mb,
    ;
}

/// Brings a wide intermediate back into the range of a stored coordinate.
pub fn clamp_to_limit(v: i128) -> (r: i64)
    ensures
        r == saturate(v as int),
        in_range(r as int),
{
    if v > LIMIT as i128 {
        LIMIT
    } else if v < -(LIMIT as i128) {
        -LIMIT
    } else {
        v as i64
    }
}

/// Divides by a positive number, rounding toward zero.
pub fn divide_toward_zero(a: i128, b: i128) -> (r: i128)
    requires
        b > 0,
        a > i128::MIN,
    ensures
        r == div_toward_zero(a as int, b as int),
{
    if a >= 0 {
        a / b
    } else {
        let m: i128 = -a;
        let q: i128 = m / b;
        proof {
            lemma_div_toward_zero(m as int, b as int);
        }
        -q
    }
}

/// Divides by a positive number, rounding away from zero.
pub fn divide_away_from_zero(a: i128, b: i128) -> (r: i128)
    requires
        b > 0,
        a > i128::MIN,
    ensures
        r == div_away_from_zero(a as int, b as int),
{
    let m: i128 = if a >= 0 {
        a
    } else {
        -a
    };
    let q: i128 = m / b;
    let rem: i128 = m % b;
    proof {
        vstd::arithmetic::div_mod::lemma_fundamental_div_mod(m as int, b as int);
        vstd::arithmetic::div_mod::lemma_div_pos_is_pos(m as int, b as int);
        assert(b * q == q * b) by (nonlinear_arith);
        if rem == 0 {
            vstd::arithmetic::div_mod::lemma_fundamental_div_mod_converse(
                m + b - 1,
                b as int,
                q as int,
                b - 1,
            );
        } else {
            assert((q + 1) * b == q * b + b) by (nonlinear_arith);
            assert(m % 1 == 0);
            assert(q * 2 <= q * b) by (nonlinear_arith)
                requires
                    q >= 0,
                    b >= 2,
            ;
            vstd::arithmetic::div_mod::lemma_fundamental_div_mod_converse(
                m + b - 1,
                b as int,
                q + 1,
                rem - 1,
            );
        }
    }
    let up: i128 = if rem == 0 {
        q
    } else {
        q + 1
    };
    if a >= 0 {
        up
    } else {
        -up
    }
}

/// Computes the square root of `n`, rounded down, by bisection.
pub fn integer_sqrt(n: u128) -> (r: u64)
    ensures
        r == floor_sqrt(n as int),
        is_floor_sqrt(n as int, r as int),
{
    let mut low: u128 = 0;
    let mut high: u128 = 0x1_0000_0000_0000_0000;
    assert(0x1_0000_0000_0000_0000int * 0x1_0000_0000_0000_0000int > u128::MAX);
    while high - low > 1
        invariant
            low < high <= 0x1_0000_0000_0000_0000,
            low * low <= n < high * high,
        decreases high - low,
    {
        let mid: u128 = low + (high - low) / 2;
        proof {
            lemma_square_monotonic(mid as int, 0xFFFF_FFFF_FFFF_FFFF);
            assert(0xFFFF_FFFF_FFFF_FFFFint * 0xFFFF_FFFF_FFFF_FFFFint <= u128::MAX);
        }
        if mid * mid <= n {
            low = mid;
        } else {
            high = mid;
        }
    }
    proof {
        assert(high == low + 1);
        lemma_floor_sqrt_unique(n as int, low as int);
    }
    low as u64
}

} // verus!
