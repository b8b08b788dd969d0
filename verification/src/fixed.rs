//! Exact fixed-point arithmetic: floor division of non-negative values,
//! scaling a velocity by a fractional timestep, and an integer square root.

use vstd::prelude::*;

use crate::world::{MAX_DT_NUM, MAX_VEL};

verus! {

/// Floor division of a non-negative value by a positive divisor.
pub fn div_nn(a: i64, b: i64) -> (q: i64)
    requires
        0 <= a,
        0 < b,
    ensures
        q == a as int / b as int,
        0 <= q <= a,
{
    let au = a as u64;
    let bu = b as u64;
    let qu = au / bu;
    proof {
        assert(au / bu <= au) by (nonlinear_arith)
            requires
                bu >= 1,
        ;
    }
    qu as i64
}

/// `v * num / den` rounded toward zero, the displacement of a component
/// moving at `v` per second over the timestep `num / den` of a second.
pub open spec fn scaled(v: int, num: int, den: int) -> int
    recommends
        num >= 0,
        den > 0,
{
    if v >= 0 {
        (v * num) / den
    } else {
        -(((-v) * num) / den)
    }
}

/// Scaling by a non-negative factor keeps the magnitude under `|v| * num`.
pub proof fn lemma_scaled_bound(v: int, num: int, den: int)
    requires
        num >= 0,
        den > 0,
    ensures
        v >= 0 ==> 0 <= scaled(v, num, den) <= v * num,
        v < 0 ==> 0 >= scaled(v, num, den) >= v * num,
{
    if v >= 0 {
        assert(0 <= (v * num) / den <= v * num) by (nonlinear_arith)
            requires
                v >= 0,
                num >= 0,
                den > 0,
        ;
    } else {
        assert((-v) * num == -(v * num) && 0 <= ((-v) * num) / den <= (-v) * num)
            by (nonlinear_arith)
            requires
                v < 0,
                num >= 0,
                den > 0,
        ;
    }
}

/// Displacement of a velocity component over one timestep.
pub fn scale_by_dt(v: i64, num: i64, den: i64) -> (r: i64)
    requires
        -MAX_VEL <= v <= MAX_VEL,
        0 <= num <= MAX_DT_NUM,
        0 < den,
    ensures
        r == scaled(v as int, num as int, den as int),
        -MAX_VEL * MAX_DT_NUM <= r <= MAX_VEL * MAX_DT_NUM,
{
    proof {
        assert(-MAX_VEL * MAX_DT_NUM <= v * num <= MAX_VEL * MAX_DT_NUM) by (nonlinear_arith)
            requires
                -MAX_VEL <= v <= MAX_VEL,
                0 <= num <= MAX_DT_NUM,
        ;
        lemma_scaled_bound(v as int, num as int, den as int);
    }
    if v >= 0 {
        let p = v * num;
        div_nn(p, den)
    } else {
        let nv = -v;
        proof {
            assert(0 <= nv * num <= MAX_VEL * MAX_DT_NUM) by (nonlinear_arith)
                requires
                    0 <= nv <= MAX_VEL,
                    0 <= num <= MAX_DT_NUM,
            ;
        }
        let p = nv * num;
        let q = div_nn(p, den);
        -q
    }
}

/// The floor of the square root of `n`.
pub open spec fn sqrt_floor(n: nat) -> nat
    decreases n,
{
    if n == 0 {
        0
    } else {
        let r = sqrt_floor((n - 1) as nat);
        if (r + 1) * (r + 1) <= n {
            r + 1
        } else {
            r
        }
    }
}

/// `sqrt_floor(n)` is the unique `r` with `r * r <= n < (r + 1) * (r + 1)`.
pub proof fn lemma_sqrt_floor_char(n: nat)
    ensures
        sqrt_floor(n) * sqrt_floor(n) <= n,
        n < (sqrt_floor(n) + 1) * (sqrt_floor(n) + 1),
    decreases n,
{
    if n > 0 {
        let m = (n - 1) as nat;
        lemma_sqrt_floor_char(m);
        let r = sqrt_floor(m);
        if (r + 1) * (r + 1) <= n {
            assert(sqrt_floor(n) == r + 1);
            assert(n < (r + 1 + 1) * (r + 1 + 1)) by (nonlinear_arith)
                requires
                    n <= (r + 1) * (r + 1),
            ;
        } else {
            assert(sqrt_floor(n) == r);
            assert(r * r <= m);
        }
    } else {
        assert(sqrt_floor(n) == 0);
        assert(0 * 0 <= n);
        assert(n < (0 + 1) * (0 + 1)) by (nonlinear_arith)
            requires
                n == 0,
        ;
    }
}

/// Any `r` with `r * r <= n < (r + 1) * (r + 1)` is `sqrt_floor(n)`.
pub proof fn lemma_sqrt_floor_unique(n: nat, r: nat)
    requires
        r * r <= n,
        n < (r + 1) * (r + 1),
    ensures
        r == sqrt_floor(n),
{
    lemma_sqrt_floor_char(n);
    let s = sqrt_floor(n);
    assert(r == s) by (nonlinear_arith)
        requires
            r * r <= n,
            n < (r + 1) * (r + 1),
            s * s <= n,
            n < (s + 1) * (s + 1),
    ;
}

/// Integer square root by bisection.
pub fn isqrt(n: u64) -> (r: u64)
    requires
        n < 0x4000_0000_0000_0000,
    ensures
        r == sqrt_floor(n as nat),
{
    let mut lo: u64 = 0;
    let mut hi: u64 = 0x8000_0000;
    proof {
        assert((0x8000_0000 as u64) * (0x8000_0000 as u64) == 0x4000_0000_0000_0000)
            by (nonlinear_arith);
    }
    while lo + 1 < hi
        invariant
            lo < hi <= 0x8000_0000,
            lo * lo <= n,
            n < hi * hi,
        decreases hi - lo,
    {
        let mid = lo + (hi - lo) / 2;
        proof {
            assert(mid * mid <= 0x8000_0000u64 * 0x8000_0000u64) by (nonlinear_arith)
                requires
                    mid <= 0x8000_0000u64,
            ;
        }
        if mid * mid <= n {
            lo = mid;
        } else {
            hi = mid;
        }
    }
    proof {
        assert(n < (lo + 1) * (lo + 1));
        lemma_sqrt_floor_unique(n as nat, lo as nat);
    }
    lo
}

} // verus!
