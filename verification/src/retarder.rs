use vstd::prelude::*;

verus! {

use vstd::arithmetic::div_mod::{
    lemma_div_is_ordered, lemma_div_multiples_vanish, lemma_div_pos_is_pos,
    lemma_mod_division_less_than_divisor, lemma_small_mod,
};
use vstd::arithmetic::mul::{lemma_mul_inequality, lemma_mul_upper_bound, lemma_mul_nonnegative};
use vstd::string::StringExecFns;
use crate::{UNIT, EffectError, valid_signal, clamp_sample, clamp_spec};
use crate::envelope::{EnvelopeKind, env_factor, wf_repeat, name_spec};
use crate::noise::{clamp_repeat, clamped_repeat};
use crate::text::{decimal_spec, decimal_string};

/// The codec's fixed sample rate, in samples per second. The delay-to-sample
/// conversion uses this one canonical rate, matching the rate of the encoded
/// waveform itself.
pub const SAMPLE_RATE: u64 = 44_100;

/// Largest accepted ghost mix level, in thousandths: full strength.
pub const LEVEL_MAX: u32 = 1000;

/// Configuration of the ghost ("retarder") mixer. `level` is the mix
/// strength in thousandths with 0 meaning disabled; `repeat` is the envelope
/// repeat factor in thousandths, reused as the stride through the ghost
/// waveform; `delay_ms` shifts the ghost right by whole milliseconds.
#[derive(Copy, Clone, Debug, PartialEq, Eq, Structural)]
pub struct RetarderParams {
    pub level: u32,
    pub env: EnvelopeKind,
    pub repeat: u64,
    pub delay_ms: u32,
}

impl RetarderParams {
    /// The parameters lie in their accepted ranges.
    pub open spec fn wf(&self) -> bool {
        self.level <= LEVEL_MAX && wf_repeat(self.repeat)
    }
}

impl Default for RetarderParams {
    /// A ghost at three tenths strength, constant envelope, one period per
    /// buffer, no delay.
    fn default() -> (d: Self)
        ensures
            d == (RetarderParams {
                level: 300,
                env: EnvelopeKind::Const,
                repeat: 1000,
                delay_ms: 0,
            }),
            d.wf(),
    {
        RetarderParams { level: 300, env: EnvelopeKind::Const, repeat: 1000, delay_ms: 0 }
    }
}

/// The number of leading zero samples that a delay in milliseconds stands
/// for at the codec's sample rate.
pub open spec fn delay_samples_spec(delay_ms: int) -> int {
    delay_ms * (SAMPLE_RATE as int) / 1000
}

/// The ghost waveform as the mixer reads it: `delay` zero samples in front,
/// then the encoded ghost, right-padded with zeros up to the primary length
/// `n` if it is shorter. A longer ghost is never truncated.
pub open spec fn padded_ghost(g: Seq<i64>, delay: int, n: int) -> Seq<i64> {
    let withdelay = Seq::new(delay as nat, |i: int| 0i64) + g;
    if withdelay.len() < n {
        withdelay + Seq::new((n - withdelay.len()) as nat, |i: int| 0i64)
    } else {
        withdelay
    }
}

/// The ghost index read for primary index `i`: the position strides by the
/// repeat factor (in thousandths) and wraps at the ghost length `plen`.
pub open spec fn ghost_index(i: int, rep: int, plen: int) -> int {
    (i * rep / 1000) % plen
}

/// The scaled ghost contribution: ghost sample times mix level (thousandths)
/// times envelope weight (scaled by `UNIT`), with both scales divided back
/// out; the magnitude rounds toward zero.
pub open spec fn contribution(g: int, level: int, w: int) -> int {
    if g >= 0 {
        g * level * w / (1000 * (UNIT as int))
    } else {
        -((-g) * level * w / (1000 * (UNIT as int)))
    }
}

/// One sample of the mixed output, for a deterministic envelope kind: the
/// old sample plus the ghost contribution, clamped to the nominal range.
pub open spec fn mixed_sample(
    old_v: int,
    pg: Seq<i64>,
    i: int,
    n: int,
    level: int,
    rep: int,
    kind: EnvelopeKind,
) -> int {
    clamp_spec(
        old_v + contribution(
            pg[ghost_index(i, rep, pg.len() as int)] as int,
            level,
            env_factor(kind, i, n, rep),
        ),
    )
}

/// The ghost contribution never exceeds one unit of amplitude in magnitude.
pub proof fn lemma_contribution_bound(g: int, level: int, w: int)
    requires
        -(UNIT as int) <= g <= UNIT as int,
        0 <= level <= LEVEL_MAX as int,
        0 <= w <= UNIT as int,
    ensures
        -(UNIT as int) <= contribution(g, level, w) <= UNIT as int,
{
    let u = UNIT as int;
    let m = if g >= 0 {
        g
    } else {
        -g
    };
    assert(0 <= m <= u);
    lemma_mul_upper_bound(m, u, level, 1000);
    lemma_mul_nonnegative(m, level);
    lemma_mul_upper_bound(m * level, u * 1000, w, u);
    lemma_mul_nonnegative(m * level, w);
    assert(u * 1000 * u == (1000 * u) * u) by (nonlinear_arith);
    lemma_div_is_ordered(m * level * w, (1000 * u) * u, 1000 * u);
    lemma_div_multiples_vanish(u, 1000 * u);
    lemma_div_pos_is_pos(m * level * w, 1000 * u);
}

/// While the mixer is still reading the delay padding, the ghost adds
/// nothing: with a repeat factor of at most one, every output sample whose
/// index lies before the delay length equals the input sample exactly.
pub proof fn lemma_delay_prefix_silent(
    old_v: int,
    g: Seq<i64>,
    i: int,
    n: int,
    level: int,
    rep: int,
    kind: EnvelopeKind,
    delay: int,
)
    requires
        0 <= i < n,
        1 <= rep <= 1000,
        g.len() >= 1,
        i < delay,
        -(UNIT as int) <= old_v <= UNIT as int,
    ensures
        mixed_sample(old_v, padded_ghost(g, delay, n), i, n, level, rep, kind) == old_v,
{
    let pg = padded_ghost(g, delay, n);
    let plen = pg.len() as int;
    assert(plen >= delay + 1);
    lemma_mul_nonnegative(i, rep);
    lemma_mul_inequality(rep, 1000, i);
    assert(i * rep == rep * i) by (nonlinear_arith);
    assert(1000 * i == i * 1000) by (nonlinear_arith);
    lemma_div_is_ordered(i * rep, i * 1000, 1000);
    lemma_div_multiples_vanish(i, 1000);
    assert(1000 * i / 1000 == i);
    lemma_div_pos_is_pos(i * rep, 1000);
    let q = i * rep / 1000;
    assert(0 <= q <= i);
    lemma_small_mod(q as nat, plen as nat);
    assert(ghost_index(i, rep, plen) == q);
    assert(pg[q] == 0i64);
    let w = env_factor(kind, i, n, rep);
    assert(0int * level == 0) by (nonlinear_arith);
    assert(0int * w == 0) by (nonlinear_arith);
    lemma_div_pos_is_pos(0, 1000 * (UNIT as int));
    assert(contribution(0, level, w) == 0int * level * w / (1000 * (UNIT as int)));
    assert(0int * level * w / (1000 * (UNIT as int)) == 0) by {
        assert(0int * level * w == 0) by (nonlinear_arith);
        vstd::arithmetic::div_mod::lemma_div_of0(1000 * (UNIT as int));
    }
}

/// The summary text for a ghost-mixer configuration: the level in
/// thousandths, the envelope name, the repeat factor in thousandths, and the
/// delay in milliseconds.
pub open spec fn retarder_describe_spec(p: RetarderParams) -> Seq<char> {
    if p.level == 0 {
        "retarder disabled"@
    } else {
        "retarder level "@ + decimal_spec(p.level as nat) + " of 1000, envelope "@ + name_spec(
            p.env,
        ) + ", repeat "@ + decimal_spec(p.repeat as nat) + ", delay "@ + decimal_spec(
            p.delay_ms as nat,
        ) + " ms"@
    }
}

/// The ghost ("retarder") mixer: blends a delayed, looped, amplitude-shaped
/// copy of a second encoded waveform into the primary signal.
pub struct RetarderProcessor {
    pub params: RetarderParams,
}

impl RetarderProcessor {
    /// A mixer with default parameters.
    pub fn new() -> (p: Self)
        ensures
            p.params == (RetarderParams {
                level: 300,
                env: EnvelopeKind::Const,
                repeat: 1000,
                delay_ms: 0,
            }),
            p.params.wf(),
    {
        RetarderProcessor { params: RetarderParams::default() }
    }

    /// A mixer with the given parameters, clamped into their accepted ranges.
    pub fn new_with_params(params: RetarderParams) -> (p: Self)
        ensures
            p.params.wf(),
            p.params.level == if params.level > LEVEL_MAX { LEVEL_MAX } else { params.level },
            p.params.env == params.env,
            p.params.repeat == clamped_repeat(params.repeat),
            p.params.delay_ms == params.delay_ms,
    {
        RetarderProcessor {
            params: RetarderParams {
                level: if params.level > LEVEL_MAX { LEVEL_MAX } else { params.level },
                env: params.env,
                repeat: clamp_repeat(params.repeat),
                delay_ms: params.delay_ms,
            },
        }
    }

    /// Mixes the ghost waveform into the primary signal: the ghost is
    /// shifted right by the configured delay, padded with zeros up to the
    /// primary length, read with the repeat-factor stride modulo its own
    /// length, weighted by the envelope and the mix level, added, and
    /// clamped. A zero level leaves the signal untouched; an empty ghost
    /// waveform is rejected as a configuration error.
    pub fn apply_retarder(&self, samples: &mut Vec<i64>, ghost_samples: &Vec<i64>) -> (res: Result<
        (),
        EffectError,
    >)
        requires
            self.params.wf(),
            valid_signal(old(samples)@),
            valid_signal(ghost_samples@),
            delay_samples_spec(self.params.delay_ms as int) + ghost_samples@.len() + old(
                samples,
            )@.len() <= usize::MAX,
        ensures
            final(samples)@.len() == old(samples)@.len(),
            self.params.level == 0 ==> res is Ok && final(samples)@ == old(samples)@,
            self.params.level > 0 && ghost_samples@.len() == 0 ==> res == Err::<(), EffectError>(
                EffectError::EmptyGhostWaveform,
            ) && final(samples)@ == old(samples)@,
            self.params.level > 0 && ghost_samples@.len() > 0 ==> res is Ok
                && valid_signal(final(samples)@),
            self.params.level > 0 && ghost_samples@.len() > 0 && self.params.env
                != EnvelopeKind::Rand ==> forall|i: int|
                0 <= i < old(samples)@.len() ==> #[trigger] final(samples)@[i] == mixed_sample(
                    old(samples)@[i] as int,
                    padded_ghost(
                        ghost_samples@,
                        delay_samples_spec(self.params.delay_ms as int),
                        old(samples)@.len() as int,
                    ),
                    i,
                    old(samples)@.len() as int,
                    self.params.level as int,
                    self.params.repeat as int,
                    self.params.env,
                ),
            forall|i: int|
                0 <= i < old(samples)@.len() ==> old(samples)@[i] - (UNIT as int)
                    <= #[trigger] final(samples)@[i] <= old(samples)@[i] + (UNIT as int),
    {
        if self.params.level == 0 {
            return Ok(());
        }
        if ghost_samples.len() == 0 {
            return Err(EffectError::EmptyGhostWaveform);
        }
        let n = samples.len();
        let delay64 = self.get_delay_samples();
        let delay: usize = delay64 as usize;
        let glen = ghost_samples.len();

        let ghost pg = padded_ghost(
            ghost_samples@,
            delay_samples_spec(self.params.delay_ms as int),
            n as int,
        );

        // Build the padded ghost: delay zeros, the ghost, then zeros up to n.
        let mut padded: Vec<i64> = Vec::new();
        let mut k: usize = 0;
        while k < delay
            invariant
                k <= delay,
                padded@.len() == k,
                forall|j: int| 0 <= j < k ==> #[trigger] padded@[j] == 0i64,
            decreases delay - k,
        {
            padded.push(0);
            k += 1;
        }
        let mut k2: usize = 0;
        while k2 < glen
            invariant
                k2 <= glen,
                glen == ghost_samples@.len(),
                padded@.len() == delay + k2,
                forall|j: int| 0 <= j < delay ==> #[trigger] padded@[j] == 0i64,
                forall|j: int|
                    delay <= j < delay + k2 ==> #[trigger] padded@[j] == ghost_samples@[j - delay],
            decreases glen - k2,
        {
            padded.push(ghost_samples[k2]);
            k2 += 1;
        }
        while padded.len() < n
            invariant
                glen == ghost_samples@.len(),
                padded@.len() >= delay + glen,
                padded@.len() <= delay + glen || padded@.len() <= n,
                forall|j: int| 0 <= j < delay ==> #[trigger] padded@[j] == 0i64,
                forall|j: int|
                    delay <= j < delay + glen ==> #[trigger] padded@[j] == ghost_samples@[j
                        - delay],
                forall|j: int| delay + glen <= j < padded@.len() ==> #[trigger] padded@[j] == 0i64,
            decreases n - padded@.len(),
        {
            padded.push(0);
        }
        proof {
            assert(pg.len() == padded@.len());
            assert forall|j: int| 0 <= j < pg.len() implies padded@[j] == pg[j] by {
                let withdelay = Seq::new(
                    delay_samples_spec(self.params.delay_ms as int) as nat,
                    |i: int| 0i64,
                ) + ghost_samples@;
                if j < delay {
                } else if j < delay + glen {
                } else {
                }
            }
            assert(padded@ =~= pg);
        }

        let plen = padded.len();
        let ghost pglen = pg.len() as int;
        assert(plen >= 1);

        let mut i: usize = 0;
        while i < n
            invariant
                self.params.wf(),
                self.params.level >= 1,
                n == samples@.len(),
                n == old(samples)@.len(),
                i <= n,
                valid_signal(old(samples)@),
                padded@ == pg,
                plen == padded@.len(),
                plen >= 1,
                valid_signal(padded@),
                forall|j: int| i <= j < n ==> #[trigger] samples@[j] == old(samples)@[j],
                forall|j: int|
                    0 <= j < i ==> -(UNIT as int) <= #[trigger] samples@[j] <= UNIT as int,
                forall|j: int|
                    0 <= j < i ==> old(samples)@[j] - (UNIT as int) <= #[trigger] samples@[j]
                        <= old(samples)@[j] + (UNIT as int),
                self.params.env != EnvelopeKind::Rand ==> forall|j: int|
                    0 <= j < i ==> #[trigger] samples@[j] == mixed_sample(
                        old(samples)@[j] as int,
                        pg,
                        j,
                        n as int,
                        self.params.level as int,
                        self.params.repeat as int,
                        self.params.env,
                    ),
            decreases n - i,
        {
            let rep = self.params.repeat;
            proof {
                assert((i as int) * (rep as int) <= u128::MAX) by (nonlinear_arith)
                    requires i <= u64::MAX && rep <= 1_000_000_000;
                lemma_mul_nonnegative(i as int, rep as int);
                lemma_div_pos_is_pos((i as int) * (rep as int), 1000);
                lemma_mod_division_less_than_divisor((i as int) * (rep as int) / 1000, plen as int);
            }
            let gi128: u128 = ((i as u128) * (rep as u128) / 1000) % (plen as u128);
            let gi: usize = gi128 as usize;
            assert(gi as int == ghost_index(i as int, rep as int, plen as int));
            let gv = padded[gi];
            let w = self.params.env.factor(i, n, rep);
            let level = self.params.level;
            proof {
                lemma_contribution_bound(gv as int, level as int, w as int);
            }
            let c: i64 = if gv >= 0 {
                proof {
                    lemma_mul_upper_bound(gv as int, UNIT as int, level as int, 1000);
                    lemma_mul_nonnegative(gv as int, level as int);
                    lemma_mul_upper_bound(
                        (gv as int) * (level as int),
                        (UNIT as int) * 1000,
                        w as int,
                        UNIT as int,
                    );
                    lemma_mul_nonnegative((gv as int) * (level as int), w as int);
                }
                ((gv as u64) * (level as u64) * w / 1_000_000_000) as i64
            } else {
                let gm: u64 = (-gv) as u64;
                proof {
                    lemma_mul_upper_bound(gm as int, UNIT as int, level as int, 1000);
                    lemma_mul_nonnegative(gm as int, level as int);
                    lemma_mul_upper_bound(
                        (gm as int) * (level as int),
                        (UNIT as int) * 1000,
                        w as int,
                        UNIT as int,
                    );
                    lemma_mul_nonnegative((gm as int) * (level as int), w as int);
                }
                -((gm * (level as u64) * w / 1_000_000_000) as i64)
            };
            assert(c as int == contribution(gv as int, level as int, w as int));
            let v = samples[i];
            let new_v = clamp_sample(v + c);
            samples[i] = new_v;
            i += 1;
        }
        Ok(())
    }

    /// Sets the mix level in thousandths, clamped to at most full strength.
    pub fn set_level(&mut self, level: u32)
        ensures
            final(self).params.level == if level > LEVEL_MAX { LEVEL_MAX } else { level },
            final(self).params.env == old(self).params.env,
            final(self).params.repeat == old(self).params.repeat,
            final(self).params.delay_ms == old(self).params.delay_ms,
    {
        self.params.level = if level > LEVEL_MAX {
            LEVEL_MAX
        } else {
            level
        };
    }

    /// Sets the envelope kind.
    pub fn set_envelope(&mut self, env: EnvelopeKind)
        ensures
            final(self).params.env == env,
            final(self).params.level == old(self).params.level,
            final(self).params.repeat == old(self).params.repeat,
            final(self).params.delay_ms == old(self).params.delay_ms,
    {
        self.params.env = env;
    }

    /// Sets the repeat factor in thousandths, clamped into the accepted
    /// range.
    pub fn set_repeat(&mut self, repeat: u64)
        ensures
            final(self).params.repeat == clamped_repeat(repeat),
            wf_repeat(final(self).params.repeat),
            final(self).params.level == old(self).params.level,
            final(self).params.env == old(self).params.env,
            final(self).params.delay_ms == old(self).params.delay_ms,
    {
        self.params.repeat = clamp_repeat(repeat);
    }

    /// Sets the delay in milliseconds.
    pub fn set_delay_ms(&mut self, delay_ms: u32)
        ensures
            final(self).params.delay_ms == delay_ms,
            final(self).params.level == old(self).params.level,
            final(self).params.env == old(self).params.env,
            final(self).params.repeat == old(self).params.repeat,
    {
        self.params.delay_ms = delay_ms;
    }

    /// Whether the mixer is enabled.
    pub fn is_enabled(&self) -> (r: bool)
        ensures
            r == (self.params.level > 0),
    {
        self.params.level > 0
    }

    /// A readable summary of the mixer settings.
    pub fn describe(&self) -> (r: String)
        requires
            self.params.wf(),
        ensures
            r@ == retarder_describe_spec(self.params),
    {
        if self.params.level == 0 {
            return String::from_str("retarder disabled");
        }
        let mut s = String::from_str("retarder level ");
        let lvl = decimal_string(self.params.level as u64);
        s.append(lvl.as_str());
        s.append(" of 1000, envelope ");
        s.append(self.params.env.name());
        s.append(", repeat ");
        let rp = decimal_string(self.params.repeat);
        s.append(rp.as_str());
        s.append(", delay ");
        let dl = decimal_string(self.params.delay_ms as u64);
        s.append(dl.as_str());
        s.append(" ms");
        proof {
            assert(s@ =~= retarder_describe_spec(self.params));
        }
        s
    }

    /// The configured delay converted to whole samples at the codec's rate.
    pub fn get_delay_samples(&self) -> (r: u64)
        ensures
            r as int == delay_samples_spec(self.params.delay_ms as int),
    {
        (self.params.delay_ms as u64) * SAMPLE_RATE / 1000
    }

    /// The length of the mixed waveform the ghost would occupy: the base
    /// length plus the delay in samples.
    pub fn estimate_output_length(&self, base_length: usize) -> (r: usize)
        requires
            base_length + delay_samples_spec(self.params.delay_ms as int) <= usize::MAX,
        ensures
            r as int == base_length + delay_samples_spec(self.params.delay_ms as int),
    {
        base_length + (self.get_delay_samples() as usize)
    }
}

} // verus!
