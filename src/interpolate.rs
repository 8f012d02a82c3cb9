use vstd::prelude::*;
use vstd::arithmetic::div_mod::lemma_fundamental_div_mod_converse;

verus! {

/// `a / n` rounded to the nearest integer, halves rounded away from zero (`n > 0`).
pub open spec fn round_half_away(a: int, n: int) -> int {
    if a >= 0 {
        (2 * a + n) / (2 * n)
    } else {
        -((-2 * a + n) / (2 * n))
    }
}

/// The rounded dependent value at step `j` of the line from `(i0, d0)` to `(i1, d1)`, `i0 < i1`.
pub open spec fn interp_value(i0: int, d0: int, i1: int, d1: int, j: int) -> int {
    round_half_away(d0 * (i1 - i0) + j * (d1 - d0), i1 - i0)
}

/// One rounded dependent value per integer step of the independent variable from `i0` to
/// `i1`, both ends included; a single `d0` when `i0 == i1`, and nothing when `i1 < i0`.
pub open spec fn interpolation(i0: i64, d0: i64, i1: i64, d1: i64) -> Seq<i64> {
    if i0 == i1 {
        seq![d0]
    } else if i1 < i0 {
        Seq::empty()
    } else {
        Seq::new((i1 - i0 + 1) as nat, |j: int| interp_value(i0 as int, d0 as int, i1 as int, d1 as int, j) as i64)
    }
}

proof fn lemma_round_from_parts(q: int, r: int, n: int)
    requires
        n > 0,
        0 <= r < n,
    ensures
        round_half_away(q * n + r, n) == q + (if q >= 0 {
            if 2 * r >= n { 1int } else { 0int }
        } else {
            if 2 * r > n { 1int } else { 0int }
        }),
{
    let a = q * n + r;
    if q >= 0 {
        let b: int = if 2 * r >= n { 1 } else { 0 };
        let t = if 2 * r >= n { 2 * r - n } else { 2 * r + n };
        assert(2 * a + n == (q + b) * (2 * n) + t) by (nonlinear_arith)
            requires
                a == q * n + r,
                (b == 1 && t == 2 * r - n) || (b == 0 && t == 2 * r + n),
        ;
        assert(a >= 0) by (nonlinear_arith)
            requires
                a == q * n + r,
                q >= 0,
                n > 0,
                r >= 0,
        ;
        lemma_fundamental_div_mod_converse(2 * a + n, 2 * n, q + b, t);
    } else {
        let b: int = if 2 * r > n { 1 } else { 0 };
        let t = if 2 * r > n { 3 * n - 2 * r } else { n - 2 * r };
        assert(a < 0) by (nonlinear_arith)
            requires
                a == q * n + r,
                q < 0,
                n > 0,
                r < n,
        ;
        assert(-2 * a + n == (-q - b) * (2 * n) + t) by (nonlinear_arith)
            requires
                a == q * n + r,
                (b == 1 && t == 3 * n - 2 * r) || (b == 0 && t == n - 2 * r),
        ;
        lemma_fundamental_div_mod_converse(-2 * a + n, 2 * n, -q - b, t);
    }
}

proof fn lemma_floor_between(q: int, r: int, n: int, d0: int, d1: int, j: int)
    requires
        n > 0,
        0 <= r < n,
        0 <= j <= n,
        q * n + r == d0 * n + j * (d1 - d0),
    ensures
        (if d0 <= d1 { d0 } else { d1 }) <= q <= (if d0 <= d1 { d1 } else { d0 }),
        r > 0 ==> q < (if d0 <= d1 { d1 } else { d0 }),
{
    let lo = if d0 <= d1 { d0 } else { d1 };
    let hi = if d0 <= d1 { d1 } else { d0 };
    let num = d0 * n + j * (d1 - d0);
    if d1 >= d0 {
        assert(d0 * n <= num <= d1 * n) by (nonlinear_arith)
            requires
                num == d0 * n + j * (d1 - d0),
                0 <= j <= n,
                d1 >= d0,
        ;
    } else {
        assert(d1 * n <= num <= d0 * n) by (nonlinear_arith)
            requires
                num == d0 * n + j * (d1 - d0),
                0 <= j <= n,
                d1 < d0,
        ;
    }
    assert(lo <= q <= hi) by (nonlinear_arith)
        requires
            q * n + r == num,
            lo * n <= num <= hi * n,
            0 <= r < n,
    ;
    if r > 0 {
        assert(q < hi) by (nonlinear_arith)
            requires
                q * n + r == num,
                num <= hi * n,
                r > 0,
                n > 0,
        ;
    }
}

/// Rasterize the dependent variable along the independent one: one value per integer step
/// from `i0` to `i1` inclusive, each the exact linear interpolation rounded to the nearest
/// integer (halves away from zero). Equal independent values give the single value `d0`.
pub fn interpolate(i0: i64, d0: i64, i1: i64, d1: i64) -> (r: Vec<i64>)
    ensures
        r@ == interpolation(i0, d0, i1, d1),
{
    if i0 == i1 {
        return vec![d0];
    }
    let mut values: Vec<i64> = Vec::new();
    if i1 < i0 {
        return values;
    }
    let n: i128 = i1 as i128 - i0 as i128;
    let dd: i128 = d1 as i128 - d0 as i128;
    let step_q: i128 = match dd.checked_div_euclid(n) {
        Some(v) => v,
        None => 0,
    };
    let step_r: i128 = match dd.checked_rem_euclid(n) {
        Some(v) => v,
        None => 0,
    };
    proof {
        vstd::arithmetic::div_mod::lemma_fundamental_div_mod(dd as int, n as int);
        let qq = dd as int / n as int;
        let rr = dd as int % n as int;
        assert(-0x2_0000_0000_0000_0000 <= qq <= 0x2_0000_0000_0000_0000) by (nonlinear_arith)
            requires
                dd == n * qq + rr,
                0 <= rr < n,
                n >= 1,
                n <= 0x1_0000_0000_0000_0000,
                -0x1_0000_0000_0000_0000 <= dd <= 0x1_0000_0000_0000_0000,
        ;
        assert(step_q == qq && step_r == rr);
    }
    let mut q: i128 = d0 as i128;
    let mut r: i128 = 0;
    let mut j: i128 = 0;
    assert(dd == step_q * n + step_r) by (nonlinear_arith)
        requires
            dd == n * step_q + step_r,
    ;
    assert(q * n + r == d0 * n + j * dd) by (nonlinear_arith)
        requires
            q == d0,
            r == 0,
            j == 0,
    ;
    while j <= n
        invariant
            n == i1 - i0,
            n > 0,
            dd == d1 - d0,
            dd == step_q * n + step_r,
            0 <= step_r < n,
            -0x2_0000_0000_0000_0000 <= step_q <= 0x2_0000_0000_0000_0000,
            0 <= j <= n + 1,
            0 <= r < n,
            j <= n ==> i64::MIN <= q <= i64::MAX,
            q * n + r == d0 * n + j * dd,
            values@.len() == j,
            forall|k: int| 0 <= k < j ==> values@[k] == interp_value(i0 as int, d0 as int, i1 as int, d1 as int, k) as i64,
        decreases n + 1 - j,
    {
        proof {
            lemma_round_from_parts(q as int, r as int, n as int);
            lemma_floor_between(q as int, r as int, n as int, d0 as int, d1 as int, j as int);
        }
        let bump: i128 = if q >= 0 {
            if 2 * r >= n { 1 } else { 0 }
        } else {
            if 2 * r > n { 1 } else { 0 }
        };
        values.push((q + bump) as i64);
        let ghost q_old = q as int;
        let ghost r_old = r as int;
        let nr: i128 = r + step_r;
        if nr >= n {
            r = nr - n;
            q = q + step_q + 1;
        } else {
            r = nr;
            q = q + step_q;
        }
        proof {
            assert(q * n + r == q_old * n + r_old + dd) by (nonlinear_arith)
                requires
                    (q == q_old + step_q + 1 && r == r_old + step_r - n) || (q == q_old + step_q && r == r_old + step_r),
                    dd == step_q * n + step_r,
            ;
            assert(d0 * n + (j + 1) * dd == d0 * n + j * dd + dd) by (nonlinear_arith);
            if j + 1 <= n {
                lemma_floor_between(q as int, r as int, n as int, d0 as int, d1 as int, j + 1);
            }
        }
        j = j + 1;
    }
    assert(values@ =~= interpolation(i0, d0, i1, d1));
    values
}

} // verus!
