//! Double-precision rounding on integers: what `f64` division and scaling by
//! 100 give, rounding to nearest with ties to even at each step, for integers
//! that `f64` holds exactly.
use vstd::prelude::*;
use vstd::arithmetic::power2::{
    pow2, lemma_pow2_unfold, lemma_pow2_pos, lemma_pow2_strictly_increases, lemma2_to64,
    lemma2_to64_rest,
};

verus! {

/// `n / d` rounded to the nearest integer, ties to the even one.
pub open spec fn round_even(n: nat, d: nat) -> nat {
    let q = n / d;
    let r = n % d;
    if 2 * r < d {
        q
    } else if 2 * r > d {
        q + 1
    } else if q % 2 == 0 {
        q
    } else {
        q + 1
    }
}

/// `k` brings `n / d` among the 53-bit significands: `2^52 <= (n / d) · 2^k < 2^53`.
pub open spec fn is_scale(n: nat, d: nat, k: nat) -> bool {
    pow2(52) * d <= n * pow2(k) && n * pow2(k) < pow2(53) * d
}

/// `n` has `s` bits beyond 53: `n < 2^(53 + s)`, and `2^(52 + s) <= n` unless
/// `s` is 0.
pub open spec fn is_excess(n: nat, s: nat) -> bool {
    n < pow2(53 + s) && (s == 0 || pow2(52 + s) <= n)
}

/// `floor(f64(raw) / f64(den) * 100.0)` for `0 < raw < den`: the quotient
/// rounds to `m / 2^k` with `m` of 53 bits, the product `100 · m / 2^k` rounds to
/// 53 significant bits, and the floor of that is taken.
pub open spec fn f64_percent_floor(raw: nat, den: nat) -> nat {
    let k = choose|k: nat| is_scale(raw, den, k);
    let m = round_even(raw * pow2(k), den);
    let n = 100 * m;
    let s = choose|s: nat| is_excess(n, s);
    let p = round_even(n, pow2(s)) * pow2(s);
    p / pow2(k)
}

proof fn lemma_pow2_double(e: nat)
    ensures
        pow2(e + 1) == 2 * pow2(e),
{
    lemma_pow2_unfold(e + 1);
}

proof fn lemma_pow2_values()
    ensures
        pow2(52) == 0x10_0000_0000_0000,
        pow2(53) == 0x20_0000_0000_0000,
        pow2(60) == 0x1000_0000_0000_0000,
{
    lemma2_to64();
    lemma2_to64_rest();
}

/// At most one scale fits.
proof fn lemma_scale_unique(n: nat, d: nat, k1: nat, k2: nat)
    requires
        is_scale(n, d, k1),
        is_scale(n, d, k2),
    ensures
        k1 == k2,
{
    lemma_pow2_double(52);
    assert(pow2(53) * d == 2 * (pow2(52) * d)) by (nonlinear_arith)
        requires
            pow2(53) == 2 * pow2(52),
    ;
    if k1 < k2 {
        lemma_pow_le_double(k1, k2);
        assert(n * pow2(k2) >= 2 * (n * pow2(k1))) by (nonlinear_arith)
            requires
                pow2(k2) >= 2 * pow2(k1),
        ;
        assert(false);
    } else if k2 < k1 {
        lemma_pow_le_double(k2, k1);
        assert(n * pow2(k1) >= 2 * (n * pow2(k2))) by (nonlinear_arith)
            requires
                pow2(k1) >= 2 * pow2(k2),
        ;
        assert(false);
    }
}

/// A larger exponent at least doubles the power.
proof fn lemma_pow_le_double(a: nat, b: nat)
    requires
        a < b,
    ensures
        pow2(b) >= 2 * pow2(a),
    decreases b - a,
{
    lemma_pow2_double(a);
    if a + 1 < b {
        lemma_pow2_strictly_increases(a + 1, b);
    }
}

/// At most one excess fits.
proof fn lemma_excess_unique(n: nat, s1: nat, s2: nat)
    requires
        is_excess(n, s1),
        is_excess(n, s2),
    ensures
        s1 == s2,
{
    if s1 < s2 {
        if 53 + s1 < 52 + s2 {
            lemma_pow2_strictly_increases(53 + s1, 52 + s2);
        }
    } else if s2 < s1 {
        if 53 + s2 < 52 + s1 {
            lemma_pow2_strictly_increases(53 + s2, 52 + s1);
        }
    }
}

fn round_even_exec(n: u128, d: u128) -> (r: u128)
    requires
        d > 0,
        n < u128::MAX / 2,
        d < u128::MAX / 2,
    ensures
        r as nat == round_even(n as nat, d as nat),
{
    let q = n / d;
    let r = n % d;
    if 2 * r < d {
        q
    } else if 2 * r > d {
        q + 1
    } else if q % 2 == 0 {
        q
    } else {
        q + 1
    }
}

/// `(n · 2^k, 2^k, k)` for the scale `k` of `n / d`.
fn scale_up(n: u128, d: u128) -> (r: (u128, u128, u32))
    requires
        0 < n,
        0 < d < 0x1_0000_0000_0000_0000,
        n < d * 0x20_0000_0000_0000,
    ensures
        r.1 == pow2(r.2 as nat),
        r.0 == (n as nat) * pow2(r.2 as nat),
        is_scale(n as nat, d as nat, r.2 as nat),
        r.0 < (d as nat) * pow2(53),
        r.2 as nat == choose|k: nat| is_scale(n as nat, d as nat, k),
{
    proof {
        lemma_pow2_values();
        lemma_pow2_pos(0);
        lemma2_to64();
        lemma_pow2_double(52);
    }
    let target: u128 = d * 0x10_0000_0000_0000u128;
    let mut scaled: u128 = n;
    let mut pk: u128 = 1;
    let mut k: u32 = 0;
    assert((n as nat) * pow2(0) == n as nat);
    while scaled < target
        invariant
            0 < n,
            0 < d < 0x1_0000_0000_0000_0000,
            target == (d as nat) * pow2(52),
            pow2(52) == 0x10_0000_0000_0000,
            scaled == (n as nat) * pow2(k as nat),
            pk == pow2(k as nat),
            scaled < 2 * target,
            k <= 116,
            1 <= pk <= scaled,
        decreases 116 - k,
    {
        proof {
            lemma_pow2_double(k as nat);
            assert((n as nat) * pow2(k as nat + 1) == 2 * ((n as nat) * pow2(k as nat))) by (
            nonlinear_arith)
                requires
                    pow2(k as nat + 1) == 2 * pow2(k as nat),
            ;
            if k >= 116 {
                lemma_pow_ge_at(k as nat, 116);
                lemma_target_below_pow116(d as nat);
                assert(false);
            }
        }
        scaled = scaled * 2;
        pk = pk * 2;
        k = k + 1;
    }
    proof {
        assert(is_scale(n as nat, d as nat, k as nat));
        let kc = choose|kk: nat| is_scale(n as nat, d as nat, kk);
        lemma_scale_unique(n as nat, d as nat, k as nat, kc);
    }
    (scaled, pk, k)
}

/// `floor(raw as f64 / den as f64 * 100.0)` for `0 < raw < den < 2^40`.
pub fn percent_floor(raw: u64, den: u64) -> (r: u128)
    requires
        0 < raw < den,
        den < 0x100_0000_0000,
    ensures
        r as nat == f64_percent_floor(raw as nat, den as nat),
{
    proof {
        lemma_pow2_values();
        lemma_pow2_pos(0);
        lemma2_to64();
        assert((raw as nat) < (den as nat) * 0x20_0000_0000_0000);
    }
    let (scaled, pk, k) = scale_up(raw as u128, den as u128);
    let m = round_even_exec(scaled, den as u128);
    proof {
        assert(scaled < (den as nat) * pow2(53));
        assert((scaled as nat) / (den as nat) < pow2(53)) by (nonlinear_arith)
            requires
                scaled < (den as nat) * pow2(53),
                den > 0,
        ;
        assert(m <= (scaled as nat) / (den as nat) + 1);
    }
    assert(m <= 0x20_0000_0000_0000);
    let n: u128 = 100 * m;
    let mut s: u32 = 0;
    let mut lim: u128 = 0x20_0000_0000_0000;
    let mut unit: u128 = 1;
    proof {
        assert(53 + 0 == 53);
    }
    while n >= lim
        invariant
            n <= 100 * 0x20_0000_0000_0000u128,
            lim == pow2(53 + s as nat),
            unit == pow2(s as nat),
            s <= 7,
            s == 0 || pow2(52 + s as nat) <= n,
            pow2(60) == 0x1000_0000_0000_0000,
        decreases 7 - s,
    {
        proof {
            lemma_pow2_double(53 + s as nat);
            lemma_pow2_double(s as nat);
            if s >= 7 {
                lemma_pow_ge_at_sixty(s as nat);
                assert(false);
            }
            lemma_pow_le_seven(s as nat);
        }
        lim = lim * 2;
        unit = unit * 2;
        s = s + 1;
    }
    proof {
        assert(is_excess(n as nat, s as nat));
        let sc = choose|ss: nat| is_excess(n as nat, ss);
        lemma_excess_unique(n as nat, s as nat, sc);
        lemma_pow2_pos(s as nat);
    }
    let e = round_even_exec(n, unit);
    proof {
        assert(e <= n / unit + 1);
        assert((n as nat / unit as nat + 1) * (unit as nat) <= n as nat + unit as nat) by (
        nonlinear_arith)
            requires
                unit > 0,
        ;
        assert(e * unit <= (n as nat / unit as nat + 1) * (unit as nat)) by (nonlinear_arith)
            requires
                e <= n / unit + 1,
                unit > 0,
        ;
        lemma2_to64();
        lemma_pow_le_seven(s as nat);
    }
    let p = e * unit;
    proof {
        lemma_pow2_pos(k as nat);
    }
    p / pk
}

proof fn lemma_pow_ge_at(k: nat, e: nat)
    requires
        k >= e,
    ensures
        pow2(k) >= pow2(e),
{
    if k > e {
        lemma_pow2_strictly_increases(e, k);
    }
}

proof fn lemma_target_below_pow116(d: nat)
    requires
        d < 0x1_0000_0000_0000_0000,
        pow2(52) == 0x10_0000_0000_0000,
    ensures
        d * pow2(52) < pow2(116),
{
    lemma2_to64();
    lemma_pow2_adds_local(64, 52);
    assert(d * pow2(52) < pow2(64) * pow2(52)) by (nonlinear_arith)
        requires
            d < pow2(64),
            pow2(52) > 0,
    ;
}

proof fn lemma_pow2_adds_local(a: nat, b: nat)
    ensures
        pow2(a + b) == pow2(a) * pow2(b),
{
    vstd::arithmetic::power2::lemma_pow2_adds(a, b);
}

proof fn lemma_pow_le_seven(s: nat)
    requires
        s <= 7,
    ensures
        pow2(s) <= 128,
{
    lemma2_to64();
    if s < 7 {
        lemma_pow2_strictly_increases(s, 7);
    }
}

proof fn lemma_pow_ge_at_sixty(s: nat)
    requires
        s >= 7,
    ensures
        pow2(53 + s) >= pow2(60),
{
    if s > 7 {
        lemma_pow2_strictly_increases(60, 53 + s);
    }
}

proof fn lemma_scale_exists(n: nat, d: nat, k: nat)
    requires
        0 < n,
        0 < d,
        n * pow2(k) < pow2(53) * d,
    ensures
        exists|j: nat| is_scale(n, d, j),
    decreases if n * pow2(k) < pow2(52) * d {
        pow2(52) * d - n * pow2(k)
    } else {
        0
    },
{
    if n * pow2(k) >= pow2(52) * d {
        assert(is_scale(n, d, k));
    } else {
        lemma_pow2_double(k);
        lemma_pow2_double(52);
        lemma_pow2_pos(k);
        assert(n * pow2(k + 1) == 2 * (n * pow2(k))) by (nonlinear_arith)
            requires
                pow2(k + 1) == 2 * pow2(k),
        ;
        assert(pow2(53) * d == 2 * (pow2(52) * d)) by (nonlinear_arith)
            requires
                pow2(53) == 2 * pow2(52),
        ;
        assert(n * pow2(k) >= 1) by (nonlinear_arith)
            requires
                n > 0,
                pow2(k) > 0,
        ;
        lemma_scale_exists(n, d, k + 1);
    }
}

proof fn lemma_excess_exists(n: nat, s: nat)
    requires
        s <= 7,
        s == 0 || pow2(52 + s) <= n,
        n < pow2(60),
    ensures
        exists|j: nat| is_excess(n, j),
    decreases 7 - s,
{
    if n < pow2(53 + s) {
        assert(is_excess(n, s));
    } else {
        if s == 7 {
            assert(53 + s == 60);
            assert(false);
        }
        assert(52 + (s + 1) == 53 + s);
        lemma_excess_exists(n, s + 1);
    }
}

/// Rounding to a multiple of `u` moves a value by at most half of `u`.
proof fn lemma_round_even_near(n: nat, u: nat)
    requires
        u > 0,
    ensures
        2 * (round_even(n, u) * u) <= 2 * n + u,
{
    let q = n / u;
    let r = n % u;
    assert(n == q * u + r) by (nonlinear_arith)
        requires
            u > 0,
            q == n / u,
            r == n % u,
    ;
    assert((q + 1) * u == q * u + u) by (nonlinear_arith);
}

/// The rounded percentage of a fraction below one is below 100.
pub proof fn lemma_percent_below_100(raw: nat, den: nat)
    requires
        0 < raw < den,
        den < 0x100_0000_0000,
    ensures
        f64_percent_floor(raw, den) < 100,
{
    lemma_pow2_values();
    lemma_pow2_pos(0);
    lemma2_to64();
    assert(raw * pow2(0) < pow2(53) * den) by (nonlinear_arith)
        requires
            raw < den,
            pow2(0) == 1,
            pow2(53) >= 1,
    ;
    lemma_scale_exists(raw, den, 0);
    let k = choose|k: nat| is_scale(raw, den, k);
    let pk = pow2(k);
    lemma_pow2_pos(k);
    let a = raw * pk;
    // 2^k is above 2^52, so above the denominator.
    assert(pow2(52) * den <= a);
    assert(a < den * pk) by (nonlinear_arith)
        requires
            a == raw * pk,
            raw < den,
            pk > 0,
    ;
    assert(pow2(52) < pk) by (nonlinear_arith)
        requires
            pow2(52) * den <= a,
            a < den * pk,
            den > 0,
    ;
    assert(a <= den * pk - pk) by (nonlinear_arith)
        requires
            a == raw * pk,
            raw + 1 <= den,
    ;
    assert(a < den * (pk - 1)) by (nonlinear_arith)
        requires
            a <= den * pk - pk,
            den < pk,
    ;
    let q = a / den;
    assert(q < pk - 1) by (nonlinear_arith)
        requires
            a < den * (pk - 1),
            den > 0,
            q == a / den,
    ;
    let m = round_even(a, den);
    assert(m <= pk - 1);
    let n = 100 * m;
    assert(n <= 100 * pk - 100);
    assert(m <= pow2(53)) by (nonlinear_arith)
        requires
            a < pow2(53) * den,
            m <= a / den + 1,
            den > 0,
    ;
    lemma_excess_exists(n, 0);
    let s = choose|s: nat| is_excess(n, s);
    if s > 7 {
        lemma_pow2_strictly_increases(60, 52 + s);
    }
    lemma_pow_le_seven(s);
    lemma_pow2_pos(s);
    lemma_round_even_near(n, pow2(s));
    let p = round_even(n, pow2(s)) * pow2(s);
    assert(p < 100 * pk);
    assert(p / pk < 100) by (nonlinear_arith)
        requires
            p < 100 * pk,
            pk > 0,
    ;
}

/// The tenths that `{:.1}` prints for `f64(n) / f64(d)` (with `n < 2^53 · d`): the
/// quotient rounds to the double `m / 2^k`, whose exact value times ten is
/// rounded to the nearest integer, ties to even.
pub open spec fn f64_ratio_tenths(n: nat, d: nat) -> nat {
    if n == 0 {
        0
    } else {
        let k = choose|k: nat| is_scale(n, d, k);
        round_even(10 * round_even(n * pow2(k), d), pow2(k))
    }
}

/// The tenths of `n as f64 / d as f64` as `{:.1}` prints them.
pub fn ratio_tenths(n: u128, d: u128) -> (r: u128)
    requires
        0 < d < 0x1_0000_0000_0000_0000,
        n < d * 0x20_0000_0000_0000,
    ensures
        r as nat == f64_ratio_tenths(n as nat, d as nat),
{
    if n == 0 {
        return 0;
    }
    proof {
        lemma_pow2_values();
    }
    let (scaled, pk, k) = scale_up(n, d);
    let m = round_even_exec(scaled, d);
    proof {
        assert((scaled as nat) / (d as nat) < pow2(53)) by (nonlinear_arith)
            requires
                scaled < (d as nat) * pow2(53),
                d > 0,
        ;
        assert(m <= (scaled as nat) / (d as nat) + 1);
        lemma_pow2_pos(k as nat);
        assert(pk <= scaled) by (nonlinear_arith)
            requires
                scaled == (n as nat) * pk,
                n >= 1,
                pk > 0,
        ;
        assert(scaled < 0x20_0000_0000_0000u128 * 0x1_0000_0000_0000_0000u128) by (nonlinear_arith)
            requires
                scaled < (d as nat) * pow2(53),
                pow2(53) == 0x20_0000_0000_0000,
                d < 0x1_0000_0000_0000_0000,
        ;
    }
    round_even_exec(10 * m, pk)
}

} // verus!
