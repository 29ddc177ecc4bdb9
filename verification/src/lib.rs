mod rng;

pub mod envelope;
pub mod noise;
pub mod processor;
pub mod retarder;
pub mod text;

use vstd::prelude::*;

pub use envelope::EnvelopeKind;
pub use noise::{NoiseParams, NoiseProcessor};
pub use processor::{ProcessingParams, SSTVProcessor};
pub use retarder::{RetarderParams, RetarderProcessor};

verus! {

/// Failures the effects pipeline can report.
#[derive(Copy, Clone, Debug, PartialEq, Eq, Structural)]
pub enum EffectError {
    /// The ghost image encoded to an empty waveform, which cannot be looped.
    EmptyGhostWaveform,
    /// The decoder found no image in the degraded signal.
    SignalUnrecoverable,
}

impl EffectError {
    /// A short description of the failure, for reporting to a caller.
    pub fn message(&self) -> (r: &'static str)
        ensures
            *self == EffectError::EmptyGhostWaveform ==> r@ == "ghost image encoded to an empty waveform"@,
            *self == EffectError::SignalUnrecoverable ==> r@ == "signal unrecoverable: reduce the noise or retarder strength"@,
    {
        match self {
            EffectError::EmptyGhostWaveform => "ghost image encoded to an empty waveform",
            EffectError::SignalUnrecoverable => "signal unrecoverable: reduce the noise or retarder strength",
        }
    }
}

/// Fixed-point scale for one unit of signal amplitude: a sample value of
/// `UNIT` stands for 1.0, `-UNIT` for -1.0.
pub const UNIT: i64 = 1_000_000;

/// A sample sequence is valid when every sample lies within one unit of
/// amplitude in either direction.
pub open spec fn valid_signal(s: Seq<i64>) -> bool {
    forall|i: int| 0 <= i < s.len() ==> -UNIT <= #[trigger] s[i] <= UNIT
}

/// Clamp a value to the nominal amplitude range [-UNIT, UNIT].
pub open spec fn clamp_spec(v: int) -> int {
    if v < -UNIT {
        -UNIT as int
    } else if v > UNIT {
        UNIT as int
    } else {
        v
    }
}

/// Clamp a sample to the nominal amplitude range.
pub fn clamp_sample(v: i64) -> (r: i64)
    ensures
        r == clamp_spec(v as int),
{
    if v < -UNIT {
        -UNIT
    } else if v > UNIT {
        UNIT
    } else {
        v
    }
}

} // verus!
