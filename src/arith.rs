use vstd::arithmetic::div_mod::{lemma_fundamental_div_mod, lemma_mod_pos_bound};
use vstd::prelude::*;

verus! {

/// `s` is the integer square root of `n`, rounded down.
pub open spec fn is_floor_sqrt(n: int, s: int) -> bool {
    0 <= s && s * s <= n && n < (s + 1) * (s + 1)
}

/// The largest `s` with `s * s <= n`.
pub open spec fn floor_sqrt(n: int) -> int {
    choose|s: int| #[trigger] is_floor_sqrt(n, s)
}

/// The smallest `s >= 0` with `s * s >= n`.
pub open spec fn ceil_sqrt(n: int) -> int {
    let s = floor_sqrt(n);
    if s * s == n {
        s
    } else {
        s + 1
    }
}

/// Division that rounds the magnitude of the quotient up (away from zero).
pub open spec fn div_away(x: int, d: int) -> int {
    if x >= 0 {
        (x + d - 1) / d
    } else {
        -((-x + d - 1) / d)
    }
}

/// Division that rounds the magnitude of the quotient down (toward zero).
pub open spec fn div_toward(x: int, d: int) -> int {
    if x >= 0 {
        x / d
    } else {
        -((-x) / d)
    }
}

pub proof fn lemma_floor_sqrt_unique(n: int, s: int, t: int)
    requires
        is_floor_sqrt(n, s),
        is_floor_sqrt(n, t),
    ensures
        s == t,
{
    if s < t {
        assert((s + 1) * (s + 1) <= t * t) by (nonlinear_arith)
            requires
                0 <= s,
                s + 1 <= t,
        ;
    }
    if t < s {
        assert((t + 1) * (t + 1) <= s * s) by (nonlinear_arith)
            requires
                0 <= t,
                t + 1 <= s,
        ;
    }
}

proof fn lemma_floor_sqrt_exists(n: int)
    requires
        n >= 0,
    ensures
        exists|s: int| #[trigger] is_floor_sqrt(n, s),
    decreases n,
{
    if n == 0 {
        assert(is_floor_sqrt(0, 0));
    } else {
        lemma_floor_sqrt_exists(n - 1);
        let s = choose|s: int| #[trigger] is_floor_sqrt(n - 1, s);
        if (s + 1) * (s + 1) <= n {
            assert(n < (s + 2) * (s + 2)) by (nonlinear_arith)
                requires
                    0 <= s,
                    n - 1 < (s + 1) * (s + 1),
            ;
            assert(is_floor_sqrt(n, s + 1));
        } else {
            assert(is_floor_sqrt(n, s));
        }
    }
}

/// The root that `floor_sqrt` chooses exists and has its defining property.
pub proof fn lemma_floor_sqrt(n: int)
    requires
        n >= 0,
    ensures
        is_floor_sqrt(n, floor_sqrt(n)),
{
    lemma_floor_sqrt_exists(n);
}

/// Any root with the defining property is the one `floor_sqrt` names.
pub proof fn lemma_floor_sqrt_is(n: int, s: int)
    requires
        is_floor_sqrt(n, s),
    ensures
        floor_sqrt(n) == s,
{
    lemma_floor_sqrt(n);
    lemma_floor_sqrt_unique(n, s, floor_sqrt(n));
}

/// Properties of the rounded-up root.
pub proof fn lemma_ceil_sqrt(n: int)
    requires
        n >= 0,
    ensures
        ceil_sqrt(n) >= floor_sqrt(n) >= 0,
        ceil_sqrt(n) * ceil_sqrt(n) >= n,
        n > 0 ==> ceil_sqrt(n) > 0,
{
    lemma_floor_sqrt(n);
    let s = floor_sqrt(n);
    if s == 0 {
        assert(s * s == 0);
    }
    assert(ceil_sqrt(n) * ceil_sqrt(n) >= n) by (nonlinear_arith)
        requires
            s >= 0,
            n < (s + 1) * (s + 1),
            ceil_sqrt(n) == (if s * s == n { s } else { s + 1 }),
    ;
}

/// A component of a vector is no larger than the vector's rounded-down length.
pub proof fn lemma_component_le_floor_sqrt(c: int, n: int)
    requires
        0 <= c * c <= n,
    ensures
        abs_le(c, floor_sqrt(n)),
{
    lemma_floor_sqrt(n);
    let s = floor_sqrt(n);
    if c > s {
        assert((s + 1) * (s + 1) <= c * c) by (nonlinear_arith)
            requires
                0 <= s,
                s + 1 <= c,
        ;
    }
    if -c > s {
        assert((s + 1) * (s + 1) <= c * c) by (nonlinear_arith)
            requires
                0 <= s,
                s + 1 <= -c,
        ;
    }
}

pub open spec fn abs_le(c: int, m: int) -> bool {
    -m <= c <= m
}

/// Bounds on the factors bound the product.
pub proof fn lemma_mul_within(a: int, b: int, ma: int, mb: int)
    requires
        -ma <= a <= ma,
        -mb <= b <= mb,
    ensures
        -(ma * mb) <= a * b <= ma * mb,
        a * b <= ma * mb,
        0 <= a * a <= ma * ma,
{
    assert(-(ma * mb) <= a * b <= ma * mb) by (nonlinear_arith)
        requires
            -ma <= a <= ma,
            -mb <= b <= mb,
    ;
    assert(0 <= a * a <= ma * ma) by (nonlinear_arith)
        requires
            -ma <= a <= ma,
    ;
}

proof fn lemma_div_parts(x: int, d: int)
    requires
        x >= 0,
        d > 0,
    ensures
        x / d >= 0,
        d * (x / d) <= x < d * (x / d) + d,
{
    lemma_fundamental_div_mod(x, d);
    lemma_mod_pos_bound(x, d);
    assert(x / d >= 0) by (nonlinear_arith)
        requires
            d > 0,
            x >= 0,
            x == d * (x / d) + (x % d),
            x % d < d,
    ;
}

/// The quotient rounded away from zero keeps the sign of `x` and covers it.
pub proof fn lemma_div_away(x: int, d: int)
    requires
        d > 0,
    ensures
        x >= 0 ==> div_away(x, d) >= 0 && d * div_away(x, d) >= x && d * div_away(x, d) < x + d,
        x < 0 ==> div_away(x, d) <= 0 && d * div_away(x, d) <= x && d * div_away(x, d) > x - d,
        div_away(-x, d) == -div_away(x, d),
{
    if x >= 0 {
        lemma_div_parts(x + d - 1, d);
        lemma_div_parts(x, d);
    } else {
        lemma_div_parts(-x + d - 1, d);
        assert(d * (-((-x + d - 1) / d)) == -(d * ((-x + d - 1) / d))) by (nonlinear_arith);
    }
    if x == 0 {
        lemma_div_parts(d - 1, d);
        assert((d - 1) / d == 0) by (nonlinear_arith)
            requires
                d * ((d - 1) / d) <= d - 1,
                d - 1 < d * ((d - 1) / d) + d,
                d > 0,
        ;
    }
}

/// The quotient rounded away from zero of `x` with `|x| <= d * k` is at most `k` in magnitude.
pub proof fn lemma_div_away_bound(x: int, d: int, k: int)
    requires
        d > 0,
        k >= 0,
        -(d * k) <= x <= d * k,
    ensures
        abs_le(div_away(x, d), k),
{
    lemma_div_away(x, d);
    let q = div_away(x, d);
    if q > k {
        assert(d * q >= d * k + d) by (nonlinear_arith)
            requires
                d > 0,
                q >= k + 1,
        ;
    }
    if q < -k {
        assert(d * q <= -(d * k) - d) by (nonlinear_arith)
            requires
                d > 0,
                q <= -k - 1,
        ;
    }
}

/// The quotient rounded toward zero keeps the sign of `x` and stays within it.
pub proof fn lemma_div_toward(x: int, d: int)
    requires
        d > 0,
    ensures
        x >= 0 ==> div_toward(x, d) >= 0 && d * div_toward(x, d) <= x,
        x < 0 ==> div_toward(x, d) <= 0 && d * div_toward(x, d) >= x,
{
    if x >= 0 {
        lemma_div_parts(x, d);
    } else {
        lemma_div_parts(-x, d);
        assert(d * (-((-x) / d)) == -(d * ((-x) / d))) by (nonlinear_arith);
    }
}

pub const SQRT_INPUT_LIMIT: u128 = 83076749736557242056487941267521536;

pub const SQRT_SEARCH_TOP: u128 = 288230376151711744;

/// Integer square root rounded down, by bisection.
pub fn floor_isqrt(n: u128) -> (r: u128)
    requires
        n < SQRT_INPUT_LIMIT,
    ensures
        is_floor_sqrt(n as int, r as int),
        r as int == floor_sqrt(n as int),
        r < SQRT_SEARCH_TOP,
{
    let mut lo: u128 = 0;
    let mut hi: u128 = SQRT_SEARCH_TOP;
    assert(SQRT_SEARCH_TOP * SQRT_SEARCH_TOP == SQRT_INPUT_LIMIT);
    while hi - lo > 1
        invariant
            lo < hi <= SQRT_SEARCH_TOP,
            lo * lo <= n,
            n < hi * hi,
        decreases hi - lo,
    {
        let mid: u128 = lo + (hi - lo) / 2;
        assert(mid * mid < SQRT_INPUT_LIMIT) by (nonlinear_arith)
            requires
                mid < SQRT_SEARCH_TOP,
                SQRT_SEARCH_TOP * SQRT_SEARCH_TOP == SQRT_INPUT_LIMIT,
        ;
        if mid * mid <= n {
            lo = mid;
        } else {
            hi = mid;
        }
    }
    proof {
        lemma_floor_sqrt_is(n as int, lo as int);
    }
    lo
}

/// Integer square root rounded up.
pub fn ceil_isqrt(n: u128) -> (r: u128)
    requires
        n < SQRT_INPUT_LIMIT,
    ensures
        r as int == ceil_sqrt(n as int),
        r <= SQRT_SEARCH_TOP,
{
    let s = floor_isqrt(n);
    if s * s == n {
        s
    } else {
        s + 1
    }
}

/// Quotient rounded away from zero; `d` is positive.
pub fn div_away_exec(x: i128, d: i128) -> (q: i128)
    requires
        d > 0,
        -0x0100_0000_0000_0000_0000_0000_0000_0000 <= x <= 0x0100_0000_0000_0000_0000_0000_0000_0000,
        d <= 0x0100_0000_0000_0000_0000_0000_0000_0000,
    ensures
        q as int == div_away(x as int, d as int),
{
    if x >= 0 {
        (x + d - 1) / d
    } else {
        -((-x + d - 1) / d)
    }
}

/// Quotient rounded toward zero; `d` is positive.
pub fn div_toward_exec(x: i128, d: i128) -> (q: i128)
    requires
        d > 0,
        -0x0100_0000_0000_0000_0000_0000_0000_0000 <= x <= 0x0100_0000_0000_0000_0000_0000_0000_0000,
    ensures
        q as int == div_toward(x as int, d as int),
{
    if x >= 0 {
        x / d
    } else {
        -((-x) / d)
    }
}

} // verus!
