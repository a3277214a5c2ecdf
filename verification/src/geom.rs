//! Fixed-point plane geometry: the coordinate pair, squared distances,
//! the integer square root, and division that truncates toward zero.
use vstd::prelude::*;

verus! {

/// A point or displacement of the plane, in fixed-point coordinates.
#[derive(Clone, Copy, PartialEq, Eq, Structural, Debug)]
pub struct Vec2 {
    pub x: i64,
    pub y: i64,
}

impl Vec2 {
    pub fn new(x: i64, y: i64) -> (v: Vec2)
        ensures
            v == (Vec2 { x, y }),
    {
        Vec2 { x, y }
    }
}

/// Both coordinates of `v` lie in `[-m, m]`.
pub open spec fn within(v: Vec2, m: i64) -> bool {
    &&& -m <= v.x <= m
    &&& -m <= v.y <= m
}

pub open spec fn sq(x: int) -> int {
    x * x
}

/// Squared Euclidean distance between two points.
pub open spec fn dist_sq(a: Vec2, b: Vec2) -> int {
    sq(b.x - a.x) + sq(b.y - a.y)
}

/// The integer square root: the largest `r` with `r * r <= n`.
pub open spec fn sqrt_floor(n: nat) -> nat
    decreases n,
{
    if n == 0 {
        0
    } else {
        let r = sqrt_floor((n - 1) as nat);
        if (r + 1) * (r + 1) <= n {
            r + 1
        } else {
            r
        }
    }
}

pub proof fn lemma_sqrt_floor_is_root(n: nat)
    ensures
        sqrt_floor(n) * sqrt_floor(n) <= n,
        n < (sqrt_floor(n) + 1) * (sqrt_floor(n) + 1),
    decreases n,
{
    if n == 0 {
        assert(sqrt_floor(n) == 0);
        assert(n < (sqrt_floor(n) + 1) * (sqrt_floor(n) + 1)) by (nonlinear_arith)
            requires
                n == 0,
                sqrt_floor(n) == 0,
        ;
    } else {
        lemma_sqrt_floor_is_root((n - 1) as nat);
        let r = sqrt_floor((n - 1) as nat);
        assert(r * r <= n - 1);
        assert(n - 1 < (r + 1) * (r + 1));
        if (r + 1) * (r + 1) <= n {
            assert(sqrt_floor(n) == r + 1);
            assert(sqrt_floor(n) * sqrt_floor(n) <= n && n < (sqrt_floor(n) + 1) * (sqrt_floor(n)
                + 1)) by (nonlinear_arith)
                requires
                    sqrt_floor(n) == r + 1,
                    (r + 1) * (r + 1) <= n,
                    n <= (r + 1) * (r + 1),
                    r >= 0,
            ;
        } else {
            assert(sqrt_floor(n) == r);
            assert(sqrt_floor(n) * sqrt_floor(n) <= n && n < (sqrt_floor(n) + 1) * (sqrt_floor(n)
                + 1)) by (nonlinear_arith)
                requires
                    sqrt_floor(n) == r,
                    r * r <= n - 1,
                    n < (r + 1) * (r + 1),
                    n >= 1,
            ;
        }
    }
}

pub proof fn lemma_sqrt_floor_unique(n: nat, r: nat)
    requires
        r * r <= n,
        n < (r + 1) * (r + 1),
    ensures
        r == sqrt_floor(n),
{
    let s = sqrt_floor(n);
    lemma_sqrt_floor_is_root(n);
    if r < s {
        assert((r + 1) * (r + 1) <= s * s) by (nonlinear_arith)
            requires
                r + 1 <= s,
                r >= 0,
        ;
    }
    if s < r {
        assert((s + 1) * (s + 1) <= r * r) by (nonlinear_arith)
            requires
                s + 1 <= r,
                s >= 0,
        ;
    }
}

/// `sqrt_floor` inverts squaring exactly.
pub proof fn lemma_sqrt_floor_square(x: nat)
    ensures
        sqrt_floor(x * x) == x,
{
    assert(x * x < (x + 1) * (x + 1)) by (nonlinear_arith);
    lemma_sqrt_floor_unique(x * x, x);
}

/// Binary search for the integer square root.
pub fn isqrt_u64(n: u64) -> (r: u64)
    ensures
        r == sqrt_floor(n as nat),
        r * r <= n,
        n < (r + 1) * (r + 1),
{
    let mut lo: u64 = 0;
    let mut hi: u64 = 4_294_967_296;
    proof {
        assert((4_294_967_296int) * (4_294_967_296int) > u64::MAX) by (nonlinear_arith);
    }
    while hi - lo > 1
        invariant
            0 <= lo < hi <= 4_294_967_296,
            lo * lo <= n,
            n < hi * hi,
        decreases hi - lo,
    {
        let mid: u64 = lo + (hi - lo) / 2;
        assert(lo < mid < hi);
        proof {
            assert(mid * mid <= u64::MAX) by (nonlinear_arith)
                requires
                    mid <= 4_294_967_295u64,
            ;
        }
        if mid * mid <= n {
            lo = mid;
        } else {
            hi = mid;
        }
    }
    proof {
        assert(n < (lo + 1) * (lo + 1)) by (nonlinear_arith)
            requires
                n < hi * hi,
                hi == lo + 1,
        ;
        lemma_sqrt_floor_unique(n as nat, lo as nat);
    }
    lo
}

/// Division truncating toward zero (the behavior of `/` on machine
/// integers), defined for positive divisors.
pub open spec fn div_trunc(a: int, b: int) -> int {
    if a >= 0 {
        a / b
    } else {
        -((-a) / b)
    }
}

pub open spec fn abs_i(x: int) -> int {
    if x < 0 {
        -x
    } else {
        x
    }
}

/// A common positive factor of dividend and divisor cancels out of the
/// truncating division.
pub proof fn lemma_div_trunc_scale(a: int, b: int, k: int)
    requires
        0 < b,
        0 < k,
    ensures
        div_trunc(k * a, k * b) == div_trunc(a, b),
{
    if a >= 0 {
        assert(k * a >= 0) by (nonlinear_arith)
            requires
                k > 0,
                a >= 0,
        ;
        vstd::arithmetic::div_mod::lemma_div_denominator(k * a, k, b);
        vstd::arithmetic::div_mod::lemma_div_multiples_vanish(a, k);
    } else {
        let m: int = -a;
        assert(k * m > 0 && -(k * a) == k * m && k * b > 0) by (nonlinear_arith)
            requires
                k > 0,
                m > 0,
                m == -a,
                b > 0,
        ;
        vstd::arithmetic::div_mod::lemma_div_denominator(k * m, k, b);
        vstd::arithmetic::div_mod::lemma_div_multiples_vanish(m, k);
    }
}

/// The quotient is no larger in magnitude than any `m` with `|a| <= b * m`.
pub proof fn lemma_div_trunc_le(a: int, b: int, m: int)
    by (nonlinear_arith)
    requires
        b >= 1,
        m >= 0,
        -(b * m) <= a <= b * m,
    ensures
        -m <= div_trunc(a, b) <= m,
{
}

pub fn div_trunc_i64(a: i64, b: i64) -> (q: i64)
    requires
        1 <= b,
        -9_000_000_000_000_000_000 <= a <= 9_000_000_000_000_000_000,
    ensures
        q == div_trunc(a as int, b as int),
{
    if a >= 0 {
        let q0: u64 = (a as u64) / (b as u64);
        proof {
            assert(q0 <= a) by (nonlinear_arith)
                requires
                    q0 == (a as u64) / (b as u64),
                    a >= 0,
                    b >= 1,
            ;
        }
        q0 as i64
    } else {
        let m: u64 = ((-a) as u64) / (b as u64);
        proof {
            assert(m <= -a) by (nonlinear_arith)
                requires
                    m == ((-a) as u64) / (b as u64),
                    -a >= 0,
                    b >= 1,
            ;
        }
        -(m as i64)
    }
}

} // verus!
