//! Exact statistics over small integer samples: the spread test behind the
//! uniformity checks, and the one-decimal rendering of standard deviations.
use vstd::prelude::*;
use crate::text::{decimal, digit, push_decimal};
use crate::value::FloatValue;

verus! {

pub open spec fn sum(l: Seq<usize>) -> nat
    decreases l.len(),
{
    if l.len() == 0 {
        0
    } else {
        sum(l.drop_last()) + l.last() as nat
    }
}

pub open spec fn sum_sq(l: Seq<usize>) -> nat
    decreases l.len(),
{
    if l.len() == 0 {
        0
    } else {
        sum_sq(l.drop_last()) + (l.last() as nat) * (l.last() as nat)
    }
}

/// `n·Σl² − (Σl)²`, which is `n(n−1)` times the sample variance.
pub open spec fn spread(l: Seq<usize>) -> int {
    l.len() * sum_sq(l) - sum(l) * sum(l)
}

/// `Σ (a·lᵢ − b)²`. With `a` the count and `b` the sum this is `n²` times the
/// sum of squared deviations from the mean, `Σ (lᵢ − mean)²`.
pub open spec fn scaled_sq_dev(l: Seq<usize>, a: int, b: int) -> int
    decreases l.len(),
{
    if l.len() == 0 {
        0
    } else {
        scaled_sq_dev(l.drop_last(), a, b) + (a * l.last() - b) * (a * l.last() - b)
    }
}

proof fn lemma_scaled_sq_dev_expand(l: Seq<usize>, a: int, b: int)
    ensures
        scaled_sq_dev(l, a, b) == a * a * sum_sq(l) - 2 * a * b * sum(l) + l.len() * b * b,
    decreases l.len(),
{
    if l.len() > 0 {
        let p = l.drop_last();
        lemma_scaled_sq_dev_expand(p, a, b);
        let x = l.last() as int;
        let q = sum_sq(p) as int;
        let w = sum(p) as int;
        let n = p.len() as int;
        let sq = sum_sq(l) as int;
        let sw = sum(l) as int;
        let d = scaled_sq_dev(l, a, b);
        let dp = scaled_sq_dev(p, a, b);
        assert(sq == q + x * x);
        assert(sw == w + x);
        assert(d == dp + (a * x - b) * (a * x - b));
        let m = l.len() as int;
        assert(m == n + 1);
        assert(d == a * a * sq - 2 * a * b * sw + m * b * b) by (nonlinear_arith)
            requires
                sq == q + x * x,
                sw == w + x,
                m == n + 1,
                d == dp + (a * x - b) * (a * x - b),
                dp == a * a * q - 2 * a * b * w + n * b * b,
        ;
    } else {
        assert(a * a * 0 - 2 * a * b * 0 + 0 * b * b == 0) by (nonlinear_arith);
    }
}

/// The sum of squared deviations, scaled by `n²`, is `n` times [`spread`].
pub proof fn lemma_scaled_sq_dev_spread(l: Seq<usize>)
    ensures
        scaled_sq_dev(l, l.len() as int, sum(l) as int) == l.len() * spread(l),
{
    let n = l.len() as int;
    let w = sum(l) as int;
    let q = sum_sq(l) as int;
    lemma_scaled_sq_dev_expand(l, n, w);
    assert(n * n * q - 2 * n * w * w + n * w * w == n * (n * q - w * w)) by (nonlinear_arith);
}

/// The sums fit the 128-bit arithmetic used below, and the count and the sum
/// are integers that doubles hold exactly (below 2^53).
pub open spec fn sample_fits(l: Seq<usize>) -> bool {
    &&& l.len() * sum_sq(l) * 1_000_000 <= u128::MAX
    &&& l.len() < 0x20_0000_0000_0000
    &&& sum(l) < 0x20_0000_0000_0000
}

/// `(Σl)² ≤ n·Σl²`, and `Σl ≤ Σl²`.
pub proof fn lemma_sums(l: Seq<usize>)
    ensures
        sum(l) * sum(l) <= l.len() * sum_sq(l),
        sum(l) <= sum_sq(l),
    decreases l.len(),
{
    if l.len() > 0 {
        let p = l.drop_last();
        lemma_sums(p);
        let w = sum(p) as int;
        let q = sum_sq(p) as int;
        let n = p.len() as int;
        let x = l.last() as int;
        assert(x <= x * x) by (nonlinear_arith)
            requires
                x >= 0,
        ;
        assert((w + x) * (w + x) <= (n + 1) * (q + x * x)) by (nonlinear_arith)
            requires
                w * w <= n * q,
                n >= 0,
                q >= 0,
                w >= 0,
                x >= 0,
                n == 0 ==> w == 0,
        {
            if n > 0 {
                assert(n * (q + n * x * x - 2 * w * x) >= (n * x - w) * (n * x - w));
                assert((n * x - w) * (n * x - w) >= 0);
                assert(q + n * x * x - 2 * w * x >= 0);
            }
        }
    }
}

/// Sums of a sample, computed in 128 bits when they fit.
pub fn sample_sums(l: &Vec<usize>) -> (r: Option<(u128, u128)>)
    ensures
        r matches Some(p) ==> p.0 == sum(l@) && p.1 == sum_sq(l@) && sample_fits(l@),
        r is None ==> !sample_fits(l@),
{
    let mut w: u128 = 0;
    let mut q: u128 = 0;
    let mut i: usize = 0;
    while i < l.len()
        invariant
            i <= l.len(),
            w == sum(l@.take(i as int)),
            q == sum_sq(l@.take(i as int)),
        decreases l.len() - i,
    {
        assert(l@.take(i + 1).drop_last() =~= l@.take(i as int));
        let x = l[i] as u128;
        let xx = match x.checked_mul(x) {
            Some(v) => v,
            None => {
                proof {
                    lemma_prefix_sums_bound(l@, (i + 1) as int);
                }
                return None;
            },
        };
        let q2 = match q.checked_add(xx) {
            Some(v) => v,
            None => {
                proof {
                    lemma_prefix_sums_bound(l@, (i + 1) as int);
                }
                return None;
            },
        };
        proof {
            lemma_prefix_sums_bound(l@, (i + 1) as int);
            lemma_sums(l@.take(i + 1));
        }
        q = q2;
        w = w + x;
        i += 1;
    }
    assert(l@.take(l.len() as int) =~= l@);
    proof {
        lemma_sums(l@);
    }
    if (l.len() as u128) >= 0x20_0000_0000_0000 || w >= 0x20_0000_0000_0000 {
        return None;
    }
    let n = l.len() as u128;
    let nq = match n.checked_mul(q) {
        Some(v) => v,
        None => {
            return None;
        },
    };
    match nq.checked_mul(1_000_000) {
        Some(_) => Some((w, q)),
        None => None,
    }
}

/// Sums of a prefix are at most those of the whole sample, and overflowing a
/// prefix means the whole does not fit.
proof fn lemma_prefix_sums_bound(l: Seq<usize>, k: int)
    requires
        0 <= k <= l.len(),
    ensures
        sum(l.take(k)) <= sum(l),
        sum_sq(l.take(k)) <= sum_sq(l),
        sample_fits(l) ==> sum_sq(l.take(k)) <= u128::MAX / 1_000_000,
    decreases l.len() - k,
{
    if k < l.len() {
        lemma_prefix_sums_bound(l, k + 1);
        assert(l.take(k + 1).drop_last() =~= l.take(k));
    } else {
        assert(l.take(k) =~= l);
    }
    if sample_fits(l) {
        let n = l.len() as int;
        let q = sum_sq(l) as int;
        if n > 0 {
            assert(q * 1_000_000 <= n * q * 1_000_000) by (nonlinear_arith)
                requires
                    n >= 1,
                    q >= 0,
            ;
        } else {
            assert(l.len() == 0);
            assert(sum_sq(l) == 0);
        }
    }
}

// ---------------------------------------------------------------------------
// Rounding to one decimal, ties to even
// ---------------------------------------------------------------------------

/// `k` is `10·√(num/den)` rounded to the nearest integer, ties to even.
pub open spec fn nearest_tenths_of_sqrt(k: int, num: int, den: int) -> bool {
    &&& k >= 0
    &&& (k == 0 || (2 * k - 1) * (2 * k - 1) * den <= 400 * num)
    &&& 400 * num <= (2 * k + 1) * (2 * k + 1) * den
    &&& (k > 0 && (2 * k - 1) * (2 * k - 1) * den == 400 * num ==> k % 2 == 0)
    &&& ((2 * k + 1) * (2 * k + 1) * den == 400 * num ==> k % 2 == 0)
}

/// The standard deviation `√(num/den)` in tenths.
pub open spec fn sd_tenths(num: int, den: int) -> int {
    choose|k: int| nearest_tenths_of_sqrt(k, num, den)
}

proof fn lemma_sqrt_unique(k1: int, k2: int, num: int, den: int)
    requires
        den > 0,
        nearest_tenths_of_sqrt(k1, num, den),
        nearest_tenths_of_sqrt(k2, num, den),
    ensures
        k1 == k2,
{
    if k1 != k2 {
        let lo = if k1 < k2 { k1 } else { k2 };
        let hi = if k1 < k2 { k2 } else { k1 };
        assert(nearest_tenths_of_sqrt(lo, num, den) && nearest_tenths_of_sqrt(hi, num, den));
        let a = 2 * lo + 1;
        let b = 2 * hi - 1;
        assert(0 < a <= b);
        assert(a * a * den <= b * b * den) by (nonlinear_arith)
            requires
                0 < a <= b,
                den > 0,
        ;
        if a < b {
            assert(a * a * den < b * b * den) by (nonlinear_arith)
                requires
                    0 < a < b,
                    den > 0,
            ;
        }
    }
}

/// Largest `r` with `r² ≤ x`.
fn isqrt(x: u128) -> (r: u128)
    ensures
        r * r <= x,
        x < (r + 1) * (r + 1),
        r < 0x1_0000_0000_0000_0000,
{
    // Invariant: lo² ≤ x < hi².
    let mut lo: u128 = 0;
    let mut hi: u128 = 0x1_0000_0000_0000_0000;
    assert(x < hi * hi) by (nonlinear_arith)
        requires
            hi == 0x1_0000_0000_0000_0000u128,
            x <= u128::MAX,
    ;
    while hi - lo > 1
        invariant
            lo < hi <= 0x1_0000_0000_0000_0000,
            lo * lo <= x,
            x < hi * hi,
        decreases hi - lo,
    {
        let mid = lo + (hi - lo) / 2;
        assert(mid < 0x1_0000_0000_0000_0000);
        assert(mid * mid <= u128::MAX) by (nonlinear_arith)
            requires
                mid < 0x1_0000_0000_0000_0000,
        ;
        if mid * mid <= x {
            lo = mid;
        } else {
            hi = mid;
        }
    }
    lo
}

/// `10·√(num/den)` rounded to the nearest integer, ties to even.
pub fn round_tenths_sqrt(num: u128, den: u128) -> (k: u128)
    requires
        den > 0,
        400 * num <= u128::MAX,
    ensures
        nearest_tenths_of_sqrt(k as int, num as int, den as int),
        k as int == sd_tenths(num as int, den as int),
{
    let t = 400 * num;
    let q = t / den;
    let rem = t % den;
    proof {
        vstd::arithmetic::div_mod::lemma_fundamental_div_mod(t as int, den as int);
    }
    assert(t == den * q + rem);
    assert(t == q * den + rem) by (nonlinear_arith)
        requires
            t == den * q + rem,
    ;
    let j = isqrt(q);
    let k0 = (j + 1) / 2;
    // (2·k0 − 1)² ≤ q < (2·k0 + 1)², so k0 rounds half up.
    assert(k0 <= 0x8000_0000_0000_0000);
    let lower_tie = k0 > 0 && {
        assert((2 * k0 - 1) * (2 * k0 - 1) <= u128::MAX) by (nonlinear_arith)
            requires
                0 < k0 <= 0x8000_0000_0000_0000u128,
        ;
        (2 * k0 - 1) * (2 * k0 - 1) == q
    } && rem == 0;
    let k = if lower_tie && k0 % 2 == 1 {
        k0 - 1
    } else {
        k0
    };
    proof {
        lemma_round_sqrt(num as int, den as int, t as int, q as int, rem as int, j as int, k0 as int, k as int, lower_tie);
        let c = choose|i: int| nearest_tenths_of_sqrt(i, num as int, den as int);
        assert(nearest_tenths_of_sqrt(c, num as int, den as int));
        lemma_sqrt_unique(k as int, c, num as int, den as int);
    }
    k
}

proof fn lemma_round_sqrt(
    num: int,
    den: int,
    t: int,
    q: int,
    rem: int,
    j: int,
    k0: int,
    k: int,
    lower_tie: bool,
)
    requires
        den > 0,
        num >= 0,
        t == 400 * num,
        t == q * den + rem,
        0 <= rem < den,
        j >= 0,
        j * j <= q < (j + 1) * (j + 1),
        k0 == (j + 1) / 2,
        lower_tie == (k0 > 0 && (2 * k0 - 1) * (2 * k0 - 1) == q && rem == 0),
        lower_tie && k0 % 2 == 1 ==> k == k0 - 1,
        !(lower_tie && k0 % 2 == 1) ==> k == k0,
    ensures
        nearest_tenths_of_sqrt(k, num, den),
{
    // 2·k0 − 1 ≤ j < 2·k0 + 1
    assert(2 * k0 - 1 <= j && j <= 2 * k0);
    assert(q >= 0) by (nonlinear_arith)
        requires
            t == q * den + rem,
            t >= 0,
            rem < den,
            den > 0,
    ;
    // lower bound for k0
    if k0 > 0 {
        assert((2 * k0 - 1) * (2 * k0 - 1) <= j * j) by (nonlinear_arith)
            requires
                0 <= 2 * k0 - 1 <= j,
        ;
        assert((2 * k0 - 1) * (2 * k0 - 1) * den <= q * den) by (nonlinear_arith)
            requires
                (2 * k0 - 1) * (2 * k0 - 1) <= q,
                den > 0,
        ;
    }
    // upper bound for k0: q + 1 ≤ (j+1)² ≤ (2k0+1)²
    assert((j + 1) * (j + 1) <= (2 * k0 + 1) * (2 * k0 + 1)) by (nonlinear_arith)
        requires
            0 <= j + 1 <= 2 * k0 + 1,
    ;
    assert(t < (q + 1) * den) by (nonlinear_arith)
        requires
            t == q * den + rem,
            rem < den,
    ;
    assert((q + 1) * den <= (2 * k0 + 1) * (2 * k0 + 1) * den) by (nonlinear_arith)
        requires
            q + 1 <= (2 * k0 + 1) * (2 * k0 + 1),
            den > 0,
    ;
    // the lower boundary is hit exactly when (2k0−1)²·den == t
    if k0 > 0 && (2 * k0 - 1) * (2 * k0 - 1) * den == t {
        assert((2 * k0 - 1) * (2 * k0 - 1) == q && rem == 0) by (nonlinear_arith)
            requires
                (2 * k0 - 1) * (2 * k0 - 1) * den == q * den + rem,
                (2 * k0 - 1) * (2 * k0 - 1) <= q,
                0 <= rem < den,
                den > 0,
        ;
    }
    if lower_tie {
        assert((2 * k0 - 1) * (2 * k0 - 1) * den == t) by (nonlinear_arith)
            requires
                (2 * k0 - 1) * (2 * k0 - 1) == q,
                rem == 0,
                t == q * den + rem,
        ;
        if k0 % 2 == 1 {
            // k = k0 − 1: its upper boundary is the tie.
            assert(2 * k + 1 == 2 * k0 - 1);
            if k > 0 {
                assert((2 * k - 1) * (2 * k - 1) * den <= (2 * k + 1) * (2 * k + 1) * den) by (nonlinear_arith)
                    requires
                        0 < 2 * k - 1 <= 2 * k + 1,
                        den > 0,
                ;
            }
        }
    }
}

// ---------------------------------------------------------------------------
// Rendering
// ---------------------------------------------------------------------------

/// A tenths count as `{:.1}` prints it: `k/10` with one decimal.
pub open spec fn render_tenths(k: nat) -> Seq<char> {
    decimal(k / 10).push('.').push(digit(k % 10))
}

pub fn push_tenths(s: &mut String, k: u128)
    ensures
        final(s)@ == old(s)@ + render_tenths(k as nat),
{
    push_decimal(s, k / 10);
    s.push('.');
    s.push(digit_char_of((k % 10) as u64));
    assert(final(s)@ =~= old(s)@ + render_tenths(k as nat));
}

fn digit_char_of(d: u64) -> (c: char)
    requires
        d < 10,
    ensures
        c == digit(d as nat),
{
    let mut s = String::new();
    push_decimal(&mut s, d as u128);
    let v = crate::text::chars_of(s.as_str());
    assert(v@.len() == 1);
    v[0]
}

/// The thousandths `f` (1..=999) without trailing zeros.
pub open spec fn fraction_digits(f: nat) -> Seq<char> {
    let d1 = f / 100;
    let d2 = (f / 10) % 10;
    let d3 = f % 10;
    if d3 != 0 {
        seq![digit(d1), digit(d2), digit(d3)]
    } else if d2 != 0 {
        seq![digit(d1), digit(d2)]
    } else {
        seq![digit(d1)]
    }
}

/// A float as `{}` prints it (shortest form; whole numbers without a point).
pub open spec fn render_float(f: FloatValue) -> Seq<char> {
    match f {
        FloatValue::NotANumber => "NaN"@,
        FloatValue::Infinity => "inf"@,
        FloatValue::NegInfinity => "-inf"@,
        FloatValue::Finite(m) => {
            let a: nat = if m < 0 {
                (-m) as nat
            } else {
                m as nat
            };
            let sign = if m < 0 {
                "-"@
            } else {
                ""@
            };
            if a % 1000 == 0 {
                sign + decimal(a / 1000)
            } else {
                sign + decimal(a / 1000) + seq!['.'] + fraction_digits(a % 1000)
            }
        },
    }
}

pub fn push_float(s: &mut String, f: FloatValue)
    ensures
        final(s)@ == old(s)@ + render_float(f),
{
    match f {
        FloatValue::NotANumber => {
            s.append("NaN");
        },
        FloatValue::Infinity => {
            s.append("inf");
        },
        FloatValue::NegInfinity => {
            s.append("-inf");
        },
        FloatValue::Finite(m) => {
            let a: u64 = if m < 0 {
                if m == i64::MIN {
                    0x8000_0000_0000_0000u64
                } else {
                    (-m) as u64
                }
            } else {
                m as u64
            };
            assert(a == if m < 0 { (-m) as nat } else { m as nat });
            if m < 0 {
                s.append("-");
            } else {
                s.append("");
            }
            push_decimal(s, (a / 1000) as u128);
            let fr = a % 1000;
            if fr != 0 {
                s.push('.');
                let d1 = fr / 100;
                let d2 = (fr / 10) % 10;
                let d3 = fr % 10;
                s.push(digit_char_of(d1));
                if d3 != 0 {
                    s.push(digit_char_of(d2));
                    s.push(digit_char_of(d3));
                } else if d2 != 0 {
                    s.push(digit_char_of(d2));
                }
            }
            proof {
                reveal_strlit("");
                reveal_strlit("-");
            }
            assert(final(s)@ =~= old(s)@ + render_float(f));
        },
    }
}

// ---------------------------------------------------------------------------
// The spread test
// ---------------------------------------------------------------------------

/// Whether `std_dev >= threshold` is false for the sample. The sample standard
/// deviation of one value is NaN, which no threshold is below; that of no
/// values is `-0.0` (an empty sum over `n - 1 = -1`), which is at least every
/// threshold up to zero.
pub open spec fn spread_below(l: Seq<usize>, threshold: FloatValue) -> bool {
    let n = l.len() as int;
    if n == 0 {
        match threshold {
            FloatValue::NotANumber => true,
            FloatValue::Infinity => true,
            FloatValue::NegInfinity => false,
            FloatValue::Finite(m) => m > 0,
        }
    } else if n == 1 {
        true
    } else {
        match threshold {
            FloatValue::NotANumber => true,
            FloatValue::Infinity => true,
            FloatValue::NegInfinity => false,
            FloatValue::Finite(m) => m > 0 && spread(l) * 1_000_000 < m * m * (n * (n - 1)),
        }
    }
}

/// Decides [`spread_below`] for a sample whose sums fit.
pub fn spread_below_exec(l: &Vec<usize>, w: u128, q: u128, threshold: FloatValue) -> (b: bool)
    requires
        w == sum(l@),
        q == sum_sq(l@),
        sample_fits(l@),
    ensures
        b == spread_below(l@, threshold),
{
    let n = l.len() as u128;
    if n == 0 {
        return match threshold {
            FloatValue::NotANumber => true,
            FloatValue::Infinity => true,
            FloatValue::NegInfinity => false,
            FloatValue::Finite(m) => m > 0,
        };
    }
    if n == 1 {
        return true;
    }
    match threshold {
        FloatValue::NotANumber => true,
        FloatValue::Infinity => true,
        FloatValue::NegInfinity => false,
        FloatValue::Finite(m) => {
            if m <= 0 {
                return false;
            }
            proof {
                lemma_sums(l@);
                assert(n * q * 1_000_000 <= u128::MAX);
                assert(w * w <= n * q);
                assert(n * q - w * w <= n * q);
                assert((n * q - w * w) * 1_000_000 <= n * q * 1_000_000) by (nonlinear_arith)
                    requires
                        0 <= n * q - w * w <= n * q,
                ;
            }
            let s = n * q - w * w;
            assert(n <= 0xFFFF_FFFF_FFFF_FFFF);
            assert(n * (n - 1) <= u128::MAX) by (nonlinear_arith)
                requires
                    1 < n <= 0xFFFF_FFFF_FFFF_FFFFu128,
            ;
            let d = n * (n - 1);
            assert(d > 0) by (nonlinear_arith)
                requires
                    n > 1,
                    d == n * (n - 1),
            ;
            let mu = m as u128;
            assert(mu * mu <= u128::MAX) by (nonlinear_arith)
                requires
                    0 < mu <= 0x7FFF_FFFF_FFFF_FFFFu128,
            ;
            let mm = mu * mu;
            let big = s * 1_000_000;
            let fl = big / d;
            // a/b < c with c whole  <=>  floor(a/b) < c
            proof {
                vstd::arithmetic::div_mod::lemma_fundamental_div_mod(big as int, d as int);
                assert(big == fl * d + big % d) by (nonlinear_arith)
                    requires
                        big == d * fl + big % d,
                ;
                assert((fl < mm) == (big < mm * d)) by (nonlinear_arith)
                    requires
                        big == fl * d + big % d,
                        0 <= big % d < d,
                        d > 0,
                        mm >= 0,
                ;
                assert(mm * d == m * m * (n * (n - 1)));
            }
            fl < mm
        },
    }
}

} // verus!
