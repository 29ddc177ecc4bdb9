use vstd::prelude::*;

verus! {

use vstd::arithmetic::div_mod::{
    lemma_mod_division_less_than_divisor, lemma_multiply_divide_lt, lemma_div_pos_is_pos,
    lemma_small_mod, lemma_div_of0,
};
use crate::UNIT;
use crate::rng::draw_below;

/// Half of the fixed-point unit: the midpoint of one envelope period.
pub const HALF_UNIT: i64 = 500_000;

/// Smallest accepted repeat factor, in thousandths of a period: one tenth.
pub const REPEAT_MIN: u64 = 100;

/// Largest accepted repeat factor, in thousandths of a period.
pub const REPEAT_MAX: u64 = 1_000_000_000;

/// Periodic shaping functions that weight the strength of an effect
/// sample by sample across a buffer.
#[derive(Copy, Clone, Debug, PartialEq, Eq, Structural)]
pub enum EnvelopeKind {
    Const,
    Sin,
    Tri,
    Saw,
    Square,
    Rand,
}

/// A repeat factor is well formed when it lies in the accepted range.
pub open spec fn wf_repeat(rep: u64) -> bool {
    REPEAT_MIN <= rep <= REPEAT_MAX
}

/// Fractional part of the envelope phase `x = (idx / (len - 1)) * (rep / 1000)`,
/// in fixed point: the result stands for `frac(x)` scaled by `UNIT` and lies in
/// `[0, UNIT)`. A single-sample buffer is treated as position zero.
pub open spec fn frac_unit(idx: int, len: int, rep: int) -> int {
    if len <= 1 {
        0
    } else {
        (idx * rep) % ((len - 1) * 1000) * (UNIT as int) / ((len - 1) * 1000)
    }
}

/// Quadratic approximation of `sin(2*pi*f)` scaled by `UNIT`, for a phase
/// fraction `f` in `[0, UNIT)`: two parabolic arcs, exact at the start,
/// quarter, half and three-quarter points of the period.
pub open spec fn sin2pi_unit(f: int) -> int {
    if f <= HALF_UNIT as int {
        16 * f * (HALF_UNIT as int - f) / (UNIT as int)
    } else {
        -(16 * (f - HALF_UNIT as int) * (UNIT as int - f) / (UNIT as int))
    }
}

/// The weight an envelope assigns to sample `idx` of a buffer of length `len`
/// with repeat factor `rep` (in thousandths), scaled by `UNIT`. The `Rand`
/// kind draws a fresh value per call and has no deterministic weight; its arm
/// here is a placeholder that no contract relies on.
pub open spec fn env_factor(kind: EnvelopeKind, idx: int, len: int, rep: int) -> int {
    let f = frac_unit(idx, len, rep);
    match kind {
        EnvelopeKind::Const => UNIT as int,
        EnvelopeKind::Sin => ((UNIT as int) + sin2pi_unit(f)) / 2,
        EnvelopeKind::Tri => if f <= HALF_UNIT as int {
            2 * f
        } else {
            2 * ((UNIT as int) - f)
        },
        EnvelopeKind::Saw => f,
        EnvelopeKind::Square => if f <= HALF_UNIT as int {
            UNIT as int
        } else {
            0
        },
        EnvelopeKind::Rand => 0,
    }
}

/// The phase fraction always lies in `[0, UNIT)`.
pub proof fn lemma_frac_unit_range(idx: int, len: int, rep: int)
    requires
        0 <= idx < len,
        1 <= rep,
    ensures
        0 <= frac_unit(idx, len, rep) < UNIT as int,
{
    if len > 1 {
        let m = (len - 1) * 1000;
        assert((len - 1) * 1000 >= 1000) by (nonlinear_arith)
            requires len >= 2;
        assert(idx * rep >= 0) by (nonlinear_arith)
            requires idx >= 0 && rep >= 1;
        let a = (idx * rep) % m;
        lemma_mod_division_less_than_divisor(idx * rep, m);
        assert(0 <= a < m);
        assert(a * (UNIT as int) < m * (UNIT as int)) by (nonlinear_arith)
            requires 0 <= a < m;
        lemma_multiply_divide_lt(a * (UNIT as int), m, UNIT as int);
        assert(a * (UNIT as int) >= 0) by (nonlinear_arith)
            requires a >= 0;
        lemma_div_pos_is_pos(a * (UNIT as int), m);
    }
}

/// The sine approximation stays within one unit of amplitude.
pub proof fn lemma_sin2pi_range(f: int)
    requires
        0 <= f < UNIT as int,
    ensures
        -(UNIT as int) <= sin2pi_unit(f) <= UNIT as int,
{
    let h = HALF_UNIT as int;
    let u = UNIT as int;
    if f <= h {
        assert(0 <= 16 * f * (h - f) <= u * u) by (nonlinear_arith)
            requires 0 <= f <= h && h == 500_000 && u == 1_000_000;
        assert(16 * f * (h - f) / u <= u) by (nonlinear_arith)
            requires 0 <= 16 * f * (h - f) <= u * u && u == 1_000_000;
        lemma_div_pos_is_pos(16 * f * (h - f), u);
    } else {
        assert(0 <= 16 * (f - h) * (u - f) <= u * u) by (nonlinear_arith)
            requires h < f < u && h == 500_000 && u == 1_000_000;
        assert(16 * (f - h) * (u - f) / u <= u) by (nonlinear_arith)
            requires 0 <= 16 * (f - h) * (u - f) <= u * u && u == 1_000_000;
        lemma_div_pos_is_pos(16 * (f - h) * (u - f), u);
    }
}

/// Every deterministic envelope weight lies in `[0, UNIT]`; the placeholder
/// value of the `Rand` arm does too.
pub proof fn lemma_env_factor_range(kind: EnvelopeKind, idx: int, len: int, rep: int)
    requires
        0 <= idx < len,
        1 <= rep,
    ensures
        0 <= env_factor(kind, idx, len, rep) <= UNIT as int,
{
    lemma_frac_unit_range(idx, len, rep);
    let f = frac_unit(idx, len, rep);
    match kind {
        EnvelopeKind::Sin => {
            lemma_sin2pi_range(f);
        },
        _ => {},
    }
}

/// At the first sample of a buffer of length at least two, with a repeat
/// factor of one period per buffer, each deterministic envelope starts at its
/// defined value: `Const` and `Square` at full weight, `Sin` at half weight,
/// `Tri` and `Saw` at zero.
pub proof fn lemma_envelope_at_start(len: int)
    requires
        2 <= len,
    ensures
        env_factor(EnvelopeKind::Const, 0, len, 1000) == UNIT as int,
        env_factor(EnvelopeKind::Sin, 0, len, 1000) == (UNIT as int) / 2,
        env_factor(EnvelopeKind::Tri, 0, len, 1000) == 0,
        env_factor(EnvelopeKind::Saw, 0, len, 1000) == 0,
        env_factor(EnvelopeKind::Square, 0, len, 1000) == UNIT as int,
{
    let m = (len - 1) * 1000;
    assert(m >= 1000) by (nonlinear_arith)
        requires m == (len - 1) * 1000 && len >= 2;
    assert(0int * 1000 == 0);
    lemma_small_mod(0nat, m as nat);
    assert((0int * 1000) % m == 0);
    assert(0int * (UNIT as int) == 0);
    lemma_div_of0(m);
    assert(frac_unit(0, len, 1000) == 0);
}

/// A single-sample buffer is a defined edge case, not a domain error: the
/// position is taken as zero, so the phase fraction is zero and every
/// envelope weight is defined and within `[0, UNIT]`.
pub proof fn lemma_envelope_single_sample(kind: EnvelopeKind, rep: int)
    requires
        1 <= rep,
    ensures
        frac_unit(0, 1, rep) == 0,
        0 <= env_factor(kind, 0, 1, rep) <= UNIT as int,
        env_factor(kind, 0, 1, rep) == env_factor(kind, 0, 2, rep),
{
    lemma_env_factor_range(kind, 0, 1, rep);
    lemma_small_mod(0nat, 1000nat);
    lemma_div_of0(1000);
    assert(0int * rep == 0) by (nonlinear_arith);
    assert(frac_unit(0, 2, rep) == 0);
}

impl EnvelopeKind {
    /// The weight for sample `idx` of a buffer of length `len` with repeat
    /// factor `rep` in thousandths, scaled by `UNIT`. Deterministic kinds
    /// return exactly their specified weight; `Rand` returns an independent
    /// uniform draw in `[0, UNIT)`.
    pub fn factor(self, idx: usize, len: usize, rep: u64) -> (r: u64)
        requires
            idx < len,
            wf_repeat(rep),
        ensures
            r <= UNIT as u64,
            self != EnvelopeKind::Rand ==> r as int == env_factor(
                self,
                idx as int,
                len as int,
                rep as int,
            ),
            self == EnvelopeKind::Rand ==> r < UNIT as u64,
    {
        proof {
            lemma_frac_unit_range(idx as int, len as int, rep as int);
        }
        let f = frac_fixed(idx, len, rep);
        let u = UNIT as u64;
        let h = HALF_UNIT as u64;
        match self {
            EnvelopeKind::Const => u,
            EnvelopeKind::Sin => {
                proof {
                    lemma_sin2pi_range(f as int);
                }
                if f <= h {
                    let p = 16 * f * (h - f);
                    let s = p / u;
                    assert(s <= u) by (nonlinear_arith)
                        requires p == 16 * f * (h - f) && 0 <= f <= h && h == 500_000 && u
                            == 1_000_000 && s == p / u;
                    (u + s) / 2
                } else {
                    let p = 16 * (f - h) * (u - f);
                    let s = p / u;
                    assert(s <= u) by (nonlinear_arith)
                        requires p == 16 * (f - h) * (u - f) && h < f < u && h == 500_000 && u
                            == 1_000_000 && s == p / u;
                    (u - s) / 2
                }
            },
            EnvelopeKind::Tri => {
                if f <= h {
                    2 * f
                } else {
                    2 * (u - f)
                }
            },
            EnvelopeKind::Saw => f,
            EnvelopeKind::Square => {
                if f <= h {
                    u
                } else {
                    0
                }
            },
            EnvelopeKind::Rand => draw_below(1_000_000) as u64,
        }
    }

    /// The display name of the envelope kind.
    pub fn name(&self) -> (r: &'static str)
        ensures
            r@ == name_spec(*self),
    {
        match self {
            EnvelopeKind::Const => "Const",
            EnvelopeKind::Sin => "Sin",
            EnvelopeKind::Tri => "Tri",
            EnvelopeKind::Saw => "Saw",
            EnvelopeKind::Square => "Square",
            EnvelopeKind::Rand => "Rand",
        }
    }
}

/// The display name of each envelope kind, as a character sequence.
pub open spec fn name_spec(kind: EnvelopeKind) -> Seq<char> {
    match kind {
        EnvelopeKind::Const => "Const"@,
        EnvelopeKind::Sin => "Sin"@,
        EnvelopeKind::Tri => "Tri"@,
        EnvelopeKind::Saw => "Saw"@,
        EnvelopeKind::Square => "Square"@,
        EnvelopeKind::Rand => "Rand"@,
    }
}

/// Fixed-point fractional phase for sample `idx`: `frac_unit`, executably.
fn frac_fixed(idx: usize, len: usize, rep: u64) -> (r: u64)
    requires
        idx < len,
        wf_repeat(rep),
    ensures
        r as int == frac_unit(idx as int, len as int, rep as int),
        r < UNIT as u64,
{
    if len <= 1 {
        return 0;
    }
    proof {
        assert((len - 1) as int * 1000 >= 1000) by (nonlinear_arith)
            requires len >= 2;
    }
    let m: u128 = ((len - 1) as u128) * 1000;
    proof {
        assert((idx as u128) * (rep as u128) <= u128::MAX) by (nonlinear_arith)
            requires idx <= u64::MAX && rep <= 1_000_000_000;
    }
    let a: u128 = (idx as u128) * (rep as u128) % m;
    proof {
        lemma_mod_division_less_than_divisor((idx as int) * (rep as int), m as int);
        assert((idx as int) * (rep as int) >= 0) by (nonlinear_arith)
            requires idx >= 0 && rep >= 0;
        assert((a as int) * (UNIT as int) < (m as int) * (UNIT as int)) by (nonlinear_arith)
            requires 0 <= (a as int) && (a as int) < (m as int);
        lemma_multiply_divide_lt((a as int) * (UNIT as int), m as int, UNIT as int);
        assert((a as int) * (UNIT as int) >= 0) by (nonlinear_arith)
            requires a as int >= 0;
        lemma_div_pos_is_pos((a as int) * (UNIT as int), m as int);
    }
    let r128: u128 = a * (UNIT as u128) / m;
    r128 as u64
}

} // verus!
