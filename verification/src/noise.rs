use vstd::prelude::*;

verus! {

use vstd::arithmetic::div_mod::{
    lemma_div_is_ordered, lemma_div_is_ordered_by_denominator, lemma_div_multiples_vanish,
    lemma_div_pos_is_pos, lemma_div_of0,
};
use vstd::arithmetic::mul::{lemma_mul_inequality, lemma_mul_upper_bound, lemma_mul_nonnegative};
use vstd::string::StringExecFns;
use crate::{UNIT, EffectError, valid_signal, clamp_sample, clamp_spec};
use crate::envelope::{EnvelopeKind, wf_repeat, name_spec, REPEAT_MIN, REPEAT_MAX};
use crate::rng::draw_below;
use crate::text::{decimal_spec, decimal_string};

/// Growth of the attenuation divisor per step of one tenth of a decibel:
/// the two-hundredth root of ten, scaled by `UNIT`.
pub const DB_STEP: u64 = 1_011_579;

/// Cap on the attenuation divisor, keeping its fixed-point arithmetic inside
/// u64. It sits far above every reachable value: the largest signal-to-noise
/// ratio used, 30.1 dB, needs a divisor near 32 times `UNIT`.
pub const DIV_CAP: u64 = 100_000_000;

/// Configuration of the additive-noise injector. `level` ranges over 0..=100
/// with 0 meaning disabled; `repeat` is the envelope repeat factor in
/// thousandths of a period.
#[derive(Copy, Clone, Debug, PartialEq, Eq, Structural)]
pub struct NoiseParams {
    pub level: u8,
    pub env: EnvelopeKind,
    pub repeat: u64,
}

impl NoiseParams {
    /// The parameters lie in their accepted ranges.
    pub open spec fn wf(&self) -> bool {
        self.level <= 100 && wf_repeat(self.repeat)
    }
}

impl Default for NoiseParams {
    /// Noise disabled, constant envelope, one period per buffer.
    fn default() -> (d: Self)
        ensures
            d == (NoiseParams { level: 0, env: EnvelopeKind::Const, repeat: 1000 }),
            d.wf(),
    {
        NoiseParams { level: 0, env: EnvelopeKind::Const, repeat: 1000 }
    }
}

/// Sum of the squared samples of a signal.
pub open spec fn sum_squares(s: Seq<i64>) -> int
    decreases s.len(),
{
    if s.len() == 0 {
        0
    } else {
        sum_squares(s.drop_last()) + (s.last() as int) * (s.last() as int)
    }
}

/// A sum of squares is never negative.
pub proof fn lemma_sum_squares_nonneg(s: Seq<i64>)
    ensures
        sum_squares(s) >= 0,
    decreases s.len(),
{
    if s.len() > 0 {
        lemma_sum_squares_nonneg(s.drop_last());
        assert((s.last() as int) * (s.last() as int) >= 0) by (nonlinear_arith);
    }
}

/// For a valid signal the sum of squares is at most the length times the
/// squared unit.
pub proof fn lemma_sum_squares_upper(s: Seq<i64>)
    requires
        valid_signal(s),
    ensures
        sum_squares(s) <= s.len() * ((UNIT as int) * (UNIT as int)),
    decreases s.len(),
{
    if s.len() == 0 {
    } else {
        assert(valid_signal(s.drop_last())) by {
            assert(forall|i: int|
                0 <= i < s.drop_last().len() ==> s.drop_last()[i] == #[trigger] s[i]);
        }
        lemma_sum_squares_upper(s.drop_last());
        let v = s.last() as int;
        assert(-(UNIT as int) <= v <= UNIT as int);
        assert(v * v <= (UNIT as int) * (UNIT as int)) by (nonlinear_arith)
            requires -1_000_000 <= v <= 1_000_000;
        assert((s.len() - 1) * ((UNIT as int) * (UNIT as int)) + (UNIT as int) * (UNIT as int)
            == s.len() * ((UNIT as int) * (UNIT as int))) by (nonlinear_arith);
    }
}

/// The integer square root: the greatest value whose square does not exceed
/// the argument.
pub open spec fn isqrt_spec(n: int) -> int
    decreases n,
{
    if n <= 0 {
        0
    } else {
        let r = isqrt_spec(n - 1);
        if (r + 1) * (r + 1) <= n {
            r + 1
        } else {
            r
        }
    }
}

/// The defining property of the integer square root.
pub proof fn lemma_isqrt_property(n: int)
    requires
        0 <= n,
    ensures
        0 <= isqrt_spec(n),
        isqrt_spec(n) * isqrt_spec(n) <= n,
        n < (isqrt_spec(n) + 1) * (isqrt_spec(n) + 1),
    decreases n,
{
    if n == 0 {
    } else {
        lemma_isqrt_property(n - 1);
        let r = isqrt_spec(n - 1);
        if (r + 1) * (r + 1) <= n {
            assert(n < ((r + 1) + 1) * ((r + 1) + 1)) by (nonlinear_arith)
                requires 0 <= r && n - 1 < (r + 1) * (r + 1);
        }
    }
}

/// Any value with the square-root property is the integer square root.
pub proof fn lemma_isqrt_unique(r: int, n: int)
    requires
        0 <= r,
        r * r <= n,
        n < (r + 1) * (r + 1),
    ensures
        r == isqrt_spec(n),
{
    lemma_isqrt_property(n);
    let q = isqrt_spec(n);
    if r < q {
        assert((r + 1) * (r + 1) <= q * q) by (nonlinear_arith)
            requires 0 <= r + 1 <= q;
        assert(false);
    }
    if q < r {
        assert((q + 1) * (q + 1) <= r * r) by (nonlinear_arith)
            requires 0 <= q + 1 <= r;
        assert(false);
    }
}

/// Integer square root of a fixed-point mean square, by bisection.
fn isqrt64(n: u64) -> (r: u64)
    requires
        n <= 1_000_000_000_000,
    ensures
        r as int == isqrt_spec(n as int),
        r <= 1_000_000,
{
    let mut lo: u64 = 0;
    let mut hi: u64 = 1_000_001;
    assert((n as int) < 1_000_001 * 1_000_001) by (nonlinear_arith)
        requires n <= 1_000_000_000_000;
    while lo + 1 < hi
        invariant
            lo < hi <= 1_000_001,
            (lo as int) * (lo as int) <= n as int,
            (n as int) < (hi as int) * (hi as int),
        decreases hi - lo,
    {
        let mid = lo + (hi - lo) / 2;
        assert(lo < mid < hi);
        assert((mid as int) * (mid as int) <= 1_000_001 * 1_000_001) by (nonlinear_arith)
            requires 0 <= (mid as int) <= 1_000_001;
        if mid * mid <= n {
            lo = mid;
        } else {
            hi = mid;
        }
    }
    proof {
        lemma_isqrt_unique(lo as int, n as int);
    }
    lo
}

/// Root-mean-square amplitude of a signal, in fixed point: the integer
/// square root of the mean squared sample.
pub open spec fn rms_spec(s: Seq<i64>) -> int {
    if s.len() == 0 {
        0
    } else {
        isqrt_spec(sum_squares(s) / s.len() as int)
    }
}

/// The root-mean-square of a valid signal is at most `UNIT`, and never
/// negative.
pub proof fn lemma_rms_range(s: Seq<i64>)
    requires
        valid_signal(s),
    ensures
        0 <= rms_spec(s) <= UNIT as int,
{
    if s.len() == 0 {
    } else {
        let n = s.len() as int;
        let u2 = (UNIT as int) * (UNIT as int);
        lemma_sum_squares_nonneg(s);
        lemma_sum_squares_upper(s);
        lemma_div_is_ordered(sum_squares(s), n * u2, n);
        lemma_div_multiples_vanish(u2, n);
        assert(sum_squares(s) / n <= u2);
        lemma_isqrt_property(sum_squares(s) / n);
        let q = isqrt_spec(sum_squares(s) / n);
        if q > UNIT as int {
            assert(u2 < q * q) by (nonlinear_arith)
                requires q > 1_000_000 && u2 == 1_000_000_000_000int;
            assert(false);
        }
        if sum_squares(s) / n >= 0 {
        } else {
            lemma_div_pos_is_pos(sum_squares(s), n);
        }
    }
}

/// Root-mean-square amplitude of the signal, computed once over the whole
/// buffer.
fn rms_of(samples: &Vec<i64>) -> (r: u64)
    requires
        valid_signal(samples@),
        samples@.len() >= 1,
    ensures
        r as int == rms_spec(samples@),
        r <= 1_000_000,
{
    let n = samples.len();
    let mut sum: u128 = 0;
    let mut i: usize = 0;
    while i < n
        invariant
            valid_signal(samples@),
            n == samples@.len(),
            i <= n,
            sum as int == sum_squares(samples@.take(i as int)),
            sum as int <= (i as int) * 1_000_000_000_000,
        decreases n - i,
    {
        let v = samples[i];
        assert(-(UNIT as int) <= v as int <= UNIT as int);
        assert((v as int) * (v as int) <= 1_000_000_000_000 && (v as int) * (v as int) >= 0)
            by (nonlinear_arith)
            requires -1_000_000 <= v as int <= 1_000_000;
        let sq: i64 = v * v;
        proof {
            assert(samples@.take(i + 1).drop_last() =~= samples@.take(i as int));
            assert(samples@.take(i + 1).last() == samples@[i as int]);
            assert((i as int) * 1_000_000_000_000 + 1_000_000_000_000
                == (i + 1) * 1_000_000_000_000) by (nonlinear_arith);
            assert((n as int) * 1_000_000_000_000 <= 340_282_366_920_938_463_463_374_607_431_768_211_455int)
                by (nonlinear_arith)
                requires n <= 18_446_744_073_709_551_615int;
            lemma_mul_inequality(i + 1, n as int, 1_000_000_000_000);
        }
        sum = sum + (sq as u128);
        i += 1;
    }
    proof {
        assert(samples@.take(n as int) =~= samples@);
        lemma_sum_squares_nonneg(samples@);
        lemma_div_is_ordered(sum as int, (n as int) * 1_000_000_000_000, n as int);
        lemma_div_multiples_vanish(1_000_000_000_000, n as int);
        lemma_div_pos_is_pos(sum as int, n as int);
    }
    let mean: u128 = sum / (n as u128);
    isqrt64(mean as u64)
}

/// One growth step of the attenuation divisor: multiply by the fixed-point
/// `DB_STEP` and cap at `DIV_CAP`.
pub open spec fn att_step(d: int) -> int {
    let e = d * (DB_STEP as int) / (UNIT as int);
    if e > DIV_CAP as int {
        DIV_CAP as int
    } else {
        e
    }
}

/// The attenuation divisor after `q` steps of one tenth of a decibel:
/// `UNIT` times ten to the power `q / 200`, capped at `DIV_CAP`.
pub open spec fn div_pow(q: nat) -> int
    decreases q,
{
    if q == 0 {
        UNIT as int
    } else {
        att_step(div_pow((q - 1) as nat))
    }
}

/// The attenuation divisor always lies between `UNIT` and `DIV_CAP`.
pub proof fn lemma_div_pow_bounds(q: nat)
    ensures
        UNIT as int <= div_pow(q) <= DIV_CAP as int,
    decreases q,
{
    if q > 0 {
        lemma_div_pow_bounds((q - 1) as nat);
        let d = div_pow((q - 1) as nat);
        lemma_mul_inequality(UNIT as int, d, DB_STEP as int);
        assert((DB_STEP as int) * d == d * (DB_STEP as int)) by (nonlinear_arith);
        assert((UNIT as int) * (DB_STEP as int) / (UNIT as int) <= d * (DB_STEP as int) / (UNIT as int)) by {
            lemma_div_is_ordered((UNIT as int) * (DB_STEP as int), d * (DB_STEP as int), UNIT as int);
        }
        lemma_div_multiples_vanish(DB_STEP as int, UNIT as int);
        assert((UNIT as int) * (DB_STEP as int) == (UNIT as int) * (DB_STEP as int));
        assert((UNIT as int) * (DB_STEP as int) / (UNIT as int) == DB_STEP as int);
        assert(d * (DB_STEP as int) / (UNIT as int) >= DB_STEP as int);
    }
}

/// One step never shrinks the divisor, as long as it starts in range.
proof fn lemma_att_step_grows(d: int)
    requires
        UNIT as int <= d <= DIV_CAP as int,
    ensures
        d <= att_step(d),
        UNIT as int <= att_step(d) <= DIV_CAP as int,
{
    lemma_mul_inequality(UNIT as int, DB_STEP as int, d);
    assert(d * (UNIT as int) <= d * (DB_STEP as int)) by (nonlinear_arith)
        requires 0 <= d && UNIT as int <= DB_STEP as int;
    lemma_div_is_ordered(d * (UNIT as int), d * (DB_STEP as int), UNIT as int);
    lemma_div_multiples_vanish(d, UNIT as int);
    assert((UNIT as int) * d == d * (UNIT as int)) by (nonlinear_arith);
    assert(d * (UNIT as int) / (UNIT as int) == d);
    lemma_div_pos_is_pos(d * (DB_STEP as int), UNIT as int);
    lemma_mul_nonnegative(d, DB_STEP as int);
}

/// More steps never shrink the divisor.
pub proof fn lemma_div_pow_monotone(q1: nat, q2: nat)
    requires
        q1 <= q2,
    ensures
        div_pow(q1) <= div_pow(q2),
    decreases q2,
{
    if q1 < q2 {
        lemma_div_pow_monotone(q1, (q2 - 1) as nat);
        lemma_div_pow_bounds((q2 - 1) as nat);
        lemma_att_step_grows(div_pow((q2 - 1) as nat));
    }
}

/// The number of tenth-of-a-decibel steps behind a noise level: the target
/// signal-to-noise ratio is `30 * (1 - level/100) + 0.1` decibels, that is
/// `301 - 3 * level` tenths.
pub open spec fn snr_steps(level: int) -> int {
    301 - 3 * level
}

/// The noise amplitude (standard deviation) the injector derives for a
/// signal and level, in fixed point: the signal's root-mean-square divided
/// by the attenuation divisor.
pub open spec fn sigma_spec(s: Seq<i64>, level: int) -> int {
    rms_spec(s) * (UNIT as int) / div_pow(snr_steps(level) as nat)
}

/// The noise amplitude of a valid signal is never negative and never exceeds
/// the signal's root-mean-square.
pub proof fn lemma_sigma_range(s: Seq<i64>, level: int)
    requires
        valid_signal(s),
        0 <= level <= 100,
    ensures
        0 <= sigma_spec(s, level) <= rms_spec(s),
        sigma_spec(s, level) <= UNIT as int,
{
    lemma_rms_range(s);
    let q = snr_steps(level) as nat;
    lemma_div_pow_bounds(q);
    let d = div_pow(q);
    lemma_mul_nonnegative(rms_spec(s), UNIT as int);
    lemma_div_pos_is_pos(rms_spec(s) * (UNIT as int), d);
    lemma_div_is_ordered_by_denominator(rms_spec(s) * (UNIT as int), UNIT as int, d);
    lemma_div_multiples_vanish(rms_spec(s), UNIT as int);
    assert((UNIT as int) * rms_spec(s) == rms_spec(s) * (UNIT as int)) by (nonlinear_arith);
}

/// A silent signal has a zero root-mean-square, so the injector derives a
/// zero noise amplitude for it at every level: injecting into silence is a
/// defined degenerate case, not an error.
pub proof fn lemma_silent_signal_sigma_zero(s: Seq<i64>, level: int)
    requires
        forall|i: int| 0 <= i < s.len() ==> #[trigger] s[i] == 0i64,
    ensures
        sigma_spec(s, level) == 0,
{
    lemma_sum_squares_of_silence(s);
    lemma_div_pow_bounds(snr_steps(level) as nat);
    if s.len() > 0 {
        lemma_div_of0(s.len() as int);
        assert(isqrt_spec(0) == 0);
    }
    assert(rms_spec(s) == 0);
    assert(rms_spec(s) * (UNIT as int) == 0) by (nonlinear_arith)
        requires rms_spec(s) == 0;
    lemma_div_of0(div_pow(snr_steps(level) as nat));
}

/// The sum of squares of a silent signal is zero.
proof fn lemma_sum_squares_of_silence(s: Seq<i64>)
    requires
        forall|i: int| 0 <= i < s.len() ==> #[trigger] s[i] == 0i64,
    ensures
        sum_squares(s) == 0,
    decreases s.len(),
{
    if s.len() > 0 {
        lemma_sum_squares_of_silence(s.drop_last());
    }
}

/// Raising the noise level never lowers the noise amplitude derived from a
/// fixed signal: the injected power is monotone in the level.
pub proof fn lemma_sigma_monotone_in_level(s: Seq<i64>, l1: int, l2: int)
    requires
        0 <= l1 <= l2 <= 100,
    ensures
        sigma_spec(s, l1) <= sigma_spec(s, l2),
{
    let q1 = snr_steps(l1) as nat;
    let q2 = snr_steps(l2) as nat;
    assert(q2 <= q1);
    lemma_div_pow_monotone(q2, q1);
    lemma_div_pow_bounds(q1);
    lemma_div_pow_bounds(q2);
    if s.len() == 0 {
        lemma_div_of0(div_pow(q1));
        lemma_div_of0(div_pow(q2));
    } else {
        lemma_sum_squares_nonneg(s);
        lemma_div_pos_is_pos(sum_squares(s), s.len() as int);
        lemma_isqrt_property(sum_squares(s) / s.len() as int);
        lemma_mul_nonnegative(rms_spec(s), UNIT as int);
        lemma_div_is_ordered_by_denominator(
            rms_spec(s) * (UNIT as int),
            div_pow(q2),
            div_pow(q1),
        );
    }
}

/// The attenuation divisor for a level, executably.
fn snr_divisor(level: u8) -> (d: u64)
    requires
        1 <= level <= 100,
    ensures
        d as int == div_pow(snr_steps(level as int) as nat),
        UNIT as u64 <= d <= DIV_CAP,
{
    let q: u32 = 301 - 3 * (level as u32);
    let mut d: u64 = UNIT as u64;
    let mut k: u32 = 0;
    proof {
        lemma_div_pow_bounds(0nat);
    }
    while k < q
        invariant
            k <= q,
            d as int == div_pow(k as nat),
            UNIT as u64 <= d <= DIV_CAP,
        decreases q - k,
    {
        proof {
            lemma_att_step_grows(d as int);
            lemma_mul_upper_bound(d as int, DIV_CAP as int, DB_STEP as int, DB_STEP as int);
        }
        let e = d * DB_STEP / (UNIT as u64);
        d = if e > DIV_CAP {
            DIV_CAP
        } else {
            e
        };
        k += 1;
    }
    d
}

/// One approximately normal draw with standard deviation `sigma` (fixed
/// point), formed as a centered sum of twelve uniform draws. Whatever the
/// draws, the result stays within six sigma of zero, and a zero sigma yields
/// exactly zero.
fn gauss_scaled(sigma: u64) -> (r: i64)
    requires
        sigma <= UNIT as u64,
    ensures
        -(6 * (sigma as int)) <= r as int <= 6 * (sigma as int),
        sigma == 0 ==> r == 0,
{
    let mut sum: u64 = 0;
    let mut k: u8 = 0;
    while k < 12
        invariant
            k <= 12,
            sum <= (k as u64) * 65535,
        decreases 12 - k,
    {
        let u = draw_below(65536);
        proof {
            assert((k as int) * 65535 + 65535 == (k + 1) * 65535) by (nonlinear_arith);
        }
        sum = sum + (u as u64);
        k += 1;
    }
    let centered: i64 = (sum as i64) - 393216;
    if centered >= 0 {
        proof {
            lemma_mul_inequality(centered as int, 393216, sigma as int);
            lemma_div_is_ordered((centered as int) * (sigma as int), 393216 * (sigma as int), 65536);
            assert(393216 * (sigma as int) == 65536 * (6 * (sigma as int))) by (nonlinear_arith);
            lemma_div_multiples_vanish(6 * (sigma as int), 65536);
            lemma_mul_nonnegative(centered as int, sigma as int);
            lemma_div_pos_is_pos((centered as int) * (sigma as int), 65536);
            lemma_mul_upper_bound(centered as int, 393216, sigma as int, 1_000_000);
        }
        let mag = (centered as u64) * sigma / 65536;
        mag as i64
    } else {
        let neg: u64 = ((-centered) as u64);
        proof {
            lemma_mul_inequality(neg as int, 393216, sigma as int);
            lemma_div_is_ordered((neg as int) * (sigma as int), 393216 * (sigma as int), 65536);
            assert(393216 * (sigma as int) == 65536 * (6 * (sigma as int))) by (nonlinear_arith);
            lemma_div_multiples_vanish(6 * (sigma as int), 65536);
            lemma_mul_nonnegative(neg as int, sigma as int);
            lemma_div_pos_is_pos((neg as int) * (sigma as int), 65536);
            lemma_mul_upper_bound(neg as int, 393216, sigma as int, 1_000_000);
        }
        let mag = neg * sigma / 65536;
        -(mag as i64)
    }
}

/// The noise a centered draw `g` contributes after envelope shaping: `g`
/// scaled by the weight `w` over `UNIT`, the magnitude rounding toward zero.
pub open spec fn noise_term(g: int, w: int) -> int {
    if g >= 0 {
        g * w / (UNIT as int)
    } else {
        -((-g) * w / (UNIT as int))
    }
}

/// One noisy output sample, deterministically from the drawn noise value:
/// the draw is shaped by the envelope weight, added, and clamped to the
/// nominal range. The draw never grows in magnitude, so the output moves at
/// most `|g|` away from the input.
pub fn inject_sample(old_v: i64, g: i64, w: u64) -> (r: i64)
    requires
        -(UNIT as int) <= old_v <= UNIT as int,
        -(6 * (UNIT as int)) <= g <= 6 * (UNIT as int),
        w <= UNIT as u64,
    ensures
        r as int == clamp_spec(old_v + noise_term(g as int, w as int)),
        old_v - (if g >= 0 { g as int } else { -(g as int) }) <= r as int <= old_v + (if g >= 0 {
            g as int
        } else {
            -(g as int)
        }),
        g == 0 ==> r == old_v,
{
    let nv: i64 = if g >= 0 {
        proof {
            lemma_mul_inequality(w as int, UNIT as int, g as int);
            assert((g as int) * (w as int) == (w as int) * (g as int)) by (nonlinear_arith);
            assert((UNIT as int) * (g as int) == (g as int) * (UNIT as int)) by (nonlinear_arith);
            lemma_div_is_ordered((g as int) * (w as int), (g as int) * (UNIT as int), UNIT as int);
            lemma_div_multiples_vanish(g as int, UNIT as int);
            lemma_mul_nonnegative(g as int, w as int);
            lemma_div_pos_is_pos((g as int) * (w as int), UNIT as int);
            lemma_mul_upper_bound(g as int, 6_000_000, w as int, 1_000_000);
        }
        ((g as u64) * w / (UNIT as u64)) as i64
    } else {
        let gm: u64 = (-g) as u64;
        proof {
            lemma_mul_inequality(w as int, UNIT as int, gm as int);
            assert((gm as int) * (w as int) == (w as int) * (gm as int)) by (nonlinear_arith);
            assert((UNIT as int) * (gm as int) == (gm as int) * (UNIT as int)) by (nonlinear_arith);
            lemma_div_is_ordered((gm as int) * (w as int), (gm as int) * (UNIT as int), UNIT as int);
            lemma_div_multiples_vanish(gm as int, UNIT as int);
            lemma_mul_nonnegative(gm as int, w as int);
            lemma_div_pos_is_pos((gm as int) * (w as int), UNIT as int);
            lemma_mul_upper_bound(gm as int, 6_000_000, w as int, 1_000_000);
        }
        -((gm * w / (UNIT as u64)) as i64)
    };
    clamp_sample(old_v + nv)
}

/// The additive-noise injector: adds amplitude-modulated, approximately
/// Gaussian noise to a sample buffer at a strength derived from the
/// configured level.
pub struct NoiseProcessor {
    pub params: NoiseParams,
}

impl NoiseProcessor {
    /// A disabled injector with default parameters.
    pub fn new() -> (p: Self)
        ensures
            p.params == (NoiseParams { level: 0, env: EnvelopeKind::Const, repeat: 1000 }),
            p.params.wf(),
    {
        NoiseProcessor { params: NoiseParams::default() }
    }

    /// An injector with the given parameters, clamped into their accepted
    /// ranges.
    pub fn new_with_params(params: NoiseParams) -> (p: Self)
        ensures
            p.params.wf(),
            p.params.level == if params.level > 100 { 100u8 } else { params.level },
            p.params.env == params.env,
            p.params.repeat == clamped_repeat(params.repeat),
    {
        NoiseProcessor {
            params: NoiseParams {
                level: if params.level > 100 { 100 } else { params.level },
                env: params.env,
                repeat: clamp_repeat(params.repeat),
            },
        }
    }

    /// Adds envelope-shaped noise to every sample and clamps the result to
    /// the nominal amplitude range. A zero level leaves the signal
    /// untouched; a silent signal derives a zero noise amplitude and is also
    /// left untouched (a degenerate case, not an error).
    pub fn apply_noise(&self, samples: &mut Vec<i64>) -> (res: Result<(), EffectError>)
        requires
            self.params.wf(),
            valid_signal(old(samples)@),
        ensures
            res is Ok,
            final(samples)@.len() == old(samples)@.len(),
            self.params.level == 0 ==> final(samples)@ == old(samples)@,
            self.params.level > 0 ==> valid_signal(final(samples)@),
            forall|i: int|
                0 <= i < old(samples)@.len() ==> old(samples)@[i] - 6 * sigma_spec(
                    old(samples)@,
                    self.params.level as int,
                ) <= #[trigger] final(samples)@[i] <= old(samples)@[i] + 6 * sigma_spec(
                    old(samples)@,
                    self.params.level as int,
                ),
            sigma_spec(old(samples)@, self.params.level as int) == 0 ==> final(samples)@ == old(
                samples,
            )@,
    {
        proof {
            lemma_sigma_range(old(samples)@, self.params.level as int);
        }
        if self.params.level == 0 {
            return Ok(());
        }
        let n = samples.len();
        if n == 0 {
            proof {
                assert(samples@ =~= old(samples)@);
            }
            return Ok(());
        }
        let rms = rms_of(samples);
        let d = snr_divisor(self.params.level);
        proof {
            lemma_mul_upper_bound(rms as int, 1_000_000, UNIT as int, 1_000_000);
        }
        let sigma = rms * (UNIT as u64) / d;
        proof {
            assert(sigma as int == sigma_spec(old(samples)@, self.params.level as int));
        }
        let ghost sig = sigma_spec(old(samples)@, self.params.level as int);
        let mut i: usize = 0;
        while i < n
            invariant
                self.params.wf(),
                self.params.level >= 1,
                n == samples@.len(),
                n == old(samples)@.len(),
                i <= n,
                valid_signal(old(samples)@),
                sigma as int == sig,
                0 <= sig <= UNIT as int,
                forall|j: int| i <= j < n ==> #[trigger] samples@[j] == old(samples)@[j],
                forall|j: int|
                    0 <= j < i ==> -(UNIT as int) <= #[trigger] samples@[j] <= UNIT as int,
                forall|j: int|
                    0 <= j < i ==> old(samples)@[j] - 6 * sig <= #[trigger] samples@[j] <= old(
                        samples,
                    )@[j] + 6 * sig,
                sig == 0 ==> forall|j: int| 0 <= j < i ==> #[trigger] samples@[j] == old(
                    samples,
                )@[j],
            decreases n - i,
        {
            let g = gauss_scaled(sigma);
            let w = self.params.env.factor(i, n, self.params.repeat);
            let v = samples[i];
            let new_v = inject_sample(v, g, w);
            samples[i] = new_v;
            i += 1;
        }
        proof {
            if sig == 0 {
                assert(samples@ =~= old(samples)@);
            }
        }
        Ok(())
    }

    /// The target signal-to-noise ratio for the current level, in hundredths
    /// of a decibel; a disabled injector has no finite ratio.
    pub fn calculate_snr_db(&self) -> (r: Option<u32>)
        requires
            self.params.wf(),
        ensures
            self.params.level == 0 ==> r is None,
            self.params.level > 0 ==> r == Some((3010 - 30 * (self.params.level as u32)) as u32),
    {
        if self.params.level == 0 {
            return None;
        }
        Some(3010 - 30 * (self.params.level as u32))
    }

    /// Sets the noise level, clamped to at most 100.
    pub fn set_level(&mut self, level: u8)
        ensures
            final(self).params.level == if level > 100 { 100u8 } else { level },
            final(self).params.env == old(self).params.env,
            final(self).params.repeat == old(self).params.repeat,
    {
        self.params.level = if level > 100 { 100 } else { level };
    }

    /// Sets the envelope kind.
    pub fn set_envelope(&mut self, env: EnvelopeKind)
        ensures
            final(self).params.env == env,
            final(self).params.level == old(self).params.level,
            final(self).params.repeat == old(self).params.repeat,
    {
        self.params.env = env;
    }

    /// Sets the envelope repeat factor in thousandths, clamped into the
    /// accepted range.
    pub fn set_repeat(&mut self, repeat: u64)
        ensures
            final(self).params.repeat == clamped_repeat(repeat),
            wf_repeat(final(self).params.repeat),
            final(self).params.level == old(self).params.level,
            final(self).params.env == old(self).params.env,
    {
        self.params.repeat = clamp_repeat(repeat);
    }

    /// Whether the injector is enabled.
    pub fn is_enabled(&self) -> (r: bool)
        ensures
            r == (self.params.level > 0),
    {
        self.params.level > 0
    }

    /// A readable summary of the injector settings.
    pub fn describe(&self) -> (r: String)
        requires
            self.params.wf(),
        ensures
            r@ == noise_describe_spec(self.params),
    {
        if self.params.level == 0 {
            return String::from_str("noise disabled");
        }
        let mut s = String::from_str("noise level ");
        let lvl = decimal_string(self.params.level as u64);
        s.append(lvl.as_str());
        s.append("%, envelope ");
        s.append(self.params.env.name());
        s.append(", repeat ");
        let rp = decimal_string(self.params.repeat);
        s.append(rp.as_str());
        s.append(", snr ");
        let snr = decimal_string(3010 - 30 * (self.params.level as u64));
        s.append(snr.as_str());
        s.append(" cdB");
        proof {
            assert(s@ =~= noise_describe_spec(self.params));
        }
        s
    }
}

/// The summary text for a noise configuration: the level in percent, the
/// envelope name, the repeat factor in thousandths, and the target
/// signal-to-noise ratio in hundredths of a decibel.
pub open spec fn noise_describe_spec(p: NoiseParams) -> Seq<char> {
    if p.level == 0 {
        "noise disabled"@
    } else {
        "noise level "@ + decimal_spec(p.level as nat) + "%, envelope "@ + name_spec(p.env)
            + ", repeat "@ + decimal_spec(p.repeat as nat) + ", snr "@ + decimal_spec(
            (3010 - 30 * (p.level as int)) as nat,
        ) + " cdB"@
    }
}

/// A repeat factor clamped into its accepted range.
pub open spec fn clamped_repeat(repeat: u64) -> u64 {
    if repeat < REPEAT_MIN {
        REPEAT_MIN
    } else if repeat > REPEAT_MAX {
        REPEAT_MAX
    } else {
        repeat
    }
}

/// Clamps a repeat factor into its accepted range.
pub fn clamp_repeat(repeat: u64) -> (r: u64)
    ensures
        r == clamped_repeat(repeat),
        wf_repeat(r),
{
    if repeat < REPEAT_MIN {
        REPEAT_MIN
    } else if repeat > REPEAT_MAX {
        REPEAT_MAX
    } else {
        repeat
    }
}

} // verus!
