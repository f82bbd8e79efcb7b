use vstd::prelude::*;

verus! {

/// The integer square root: the largest `r` with `r * r <= n`.
pub open spec fn isqrt(n: nat) -> nat
    decreases n,
{
    if n == 0 {
        0
    } else {
        let r = isqrt((n - 1) as nat);
        if (r + 1) * (r + 1) <= n {
            r + 1
        } else {
            r
        }
    }
}

/// `r` is the floor of the square root of `n`.
pub open spec fn is_root_floor(n: int, r: int) -> bool {
    0 <= r && r * r <= n && n < (r + 1) * (r + 1)
}

proof fn lemma_square_le(a: int, b: int)
    requires
        0 <= a <= b,
    ensures
        a * a <= b * b,
{
    assert(a * a <= a * b) by (nonlinear_arith)
        requires
            0 <= a <= b,
    ;
    assert(a * b <= b * b) by (nonlinear_arith)
        requires
            0 <= a <= b,
    ;
}

/// `isqrt` meets the defining inequalities.
pub proof fn lemma_isqrt_bounds(n: nat)
    ensures
        is_root_floor(n as int, isqrt(n) as int),
    decreases n,
{
    if n > 0 {
        lemma_isqrt_bounds((n - 1) as nat);
        let r = isqrt((n - 1) as nat) as int;
        if (r + 1) * (r + 1) <= n {
            // n - 1 < (r + 1)^2 <= n, so (r + 1)^2 == n < (r + 2)^2
            lemma_square_le(r + 1, r + 2);
            assert((r + 1) * (r + 1) < (r + 2) * (r + 2)) by (nonlinear_arith)
                requires
                    r >= 0,
            ;
        }
    }
}

/// The defining inequalities have one solution only.
pub proof fn lemma_root_floor_unique(n: int, r1: int, r2: int)
    requires
        is_root_floor(n, r1),
        is_root_floor(n, r2),
    ensures
        r1 == r2,
{
    if r1 < r2 {
        lemma_square_le(r1 + 1, r2);
    } else if r2 < r1 {
        lemma_square_le(r2 + 1, r1);
    }
}

/// Any solution of the defining inequalities is `isqrt`.
pub proof fn lemma_isqrt_is_root_floor(n: nat, r: int)
    requires
        is_root_floor(n as int, r),
    ensures
        isqrt(n) == r,
{
    lemma_isqrt_bounds(n);
    lemma_root_floor_unique(n as int, r, isqrt(n) as int);
}

/// One Newton step from an upper estimate stays an upper estimate.
proof fn lemma_newton_step(n: int, x: int)
    requires
        x > 0,
        n >= 0,
    ensures
        n < ((x + n / x) / 2 + 1) * ((x + n / x) / 2 + 1),
{
    let q = n / x;
    let y = (x + q) / 2;
    assert(n < x * (q + 1)) by (nonlinear_arith)
        requires
            x > 0,
            q == n / x,
            n >= 0,
    ;
    assert(4 * (x * (q + 1)) <= (x + q + 1) * (x + q + 1)) by (nonlinear_arith)
        requires
            x > 0,
            q >= 0,
    ;
    assert(x + q + 1 <= 2 * y + 2);
    assert(q >= 0) by (nonlinear_arith)
        requires
            x > 0,
            n >= 0,
            q == n / x,
    ;
    lemma_square_le(x + q + 1, 2 * y + 2);
    assert((2 * y + 2) * (2 * y + 2) == 4 * ((y + 1) * (y + 1))) by (nonlinear_arith);
}

/// A Newton step that does not decrease the estimate means the estimate is low enough.
proof fn lemma_newton_stop(n: int, x: int)
    requires
        x > 0,
        n >= 0,
        (x + n / x) / 2 >= x,
    ensures
        x * x <= n,
{
    let q = n / x;
    assert(q >= x);
    assert(x * q <= n) by (nonlinear_arith)
        requires
            x > 0,
            n >= 0,
            q == n / x,
    ;
    assert(x * x <= x * q) by (nonlinear_arith)
        requires
            x > 0,
            q >= x,
    ;
}

/// Integer square root by Newton's method.
pub fn sqrt_u64(n: u64) -> (r: u64)
    ensures
        r as nat == isqrt(n as nat),
{
    if n == 0 {
        proof {
            lemma_isqrt_is_root_floor(0, 0);
        }
        return 0;
    }
    if n < 4 {
        proof {
            lemma_isqrt_is_root_floor(n as nat, 1);
        }
        return 1;
    }
    let mut x: u64 = n;
    let mut y: u64 = x / 2 + x % 2;
    assert(n < (x + 1) * (x + 1)) by (nonlinear_arith)
        requires
            x == n,
            n >= 4,
    ;
    assert(n as int / x as int == 1) by (nonlinear_arith)
        requires
            x == n,
            n >= 4,
    ;
    while y < x
        invariant
            0 < x <= n,
            n >= 4,
            n < (x + 1) * (x + 1),
            y as int == (x + n as int / x as int) / 2,
        decreases x,
    {
        proof {
            lemma_newton_step(n as int, x as int);
        }
        x = y;
        assert(x > 0) by (nonlinear_arith)
            requires
                n >= 4,
                n < (x + 1) * (x + 1),
        ;
        let q: u64 = n / x;
        y = x / 2 + q / 2 + (x % 2 + q % 2) / 2;
    }
    proof {
        lemma_newton_stop(n as int, x as int);
        lemma_isqrt_is_root_floor(n as nat, x as int);
    }
    x
}

/// `v` clamped into `[lo, hi]`.
pub open spec fn clamp(v: int, lo: int, hi: int) -> int {
    if v < lo {
        lo
    } else if v > hi {
        hi
    } else {
        v
    }
}

} // verus!
