use vstd::prelude::*;

verus! {

use vstd::string::StringExecFns;
use crate::{EffectError, valid_signal};
use crate::envelope::EnvelopeKind;
use crate::noise::{NoiseParams, NoiseProcessor, clamped_repeat, noise_describe_spec, sigma_spec};
use crate::retarder::{
    RetarderParams, RetarderProcessor, delay_samples_spec, mixed_sample, padded_ghost,
    retarder_describe_spec, LEVEL_MAX,
};

/// The full effect configuration for one pipeline run: noise and ghost
/// settings together.
#[derive(Copy, Clone, Debug, PartialEq, Eq, Structural)]
pub struct ProcessingParams {
    pub noise: NoiseParams,
    pub retarder: RetarderParams,
}

impl ProcessingParams {
    /// Both parameter sets lie in their accepted ranges.
    pub open spec fn wf(&self) -> bool {
        self.noise.wf() && self.retarder.wf()
    }
}

impl Default for ProcessingParams {
    /// Noise disabled and the default ghost settings.
    fn default() -> (d: Self)
        ensures
            d == (ProcessingParams {
                noise: NoiseParams { level: 0, env: EnvelopeKind::Const, repeat: 1000 },
                retarder: RetarderParams {
                    level: 300,
                    env: EnvelopeKind::Const,
                    repeat: 1000,
                    delay_ms: 0,
                },
            }),
            d.wf(),
    {
        ProcessingParams { noise: NoiseParams::default(), retarder: RetarderParams::default() }
    }
}

/// The outcome of the external decoder on a waveform.
#[derive(Copy, Clone, Debug, PartialEq, Eq, Structural)]
pub enum DecodeOutcome {
    /// A full frame was recovered.
    Finished,
    /// A frame was recovered but is incomplete: synchronization was lost.
    Partial,
    /// No image was found in the signal.
    NoneFound,
}

/// Whether a decode outcome carries a usable image. A finished frame is
/// complete (`Ok(true)`), a partial frame is usable but degraded
/// (`Ok(false)`), and a decoder that found nothing is a recoverable failure.
pub fn classify_decode(outcome: DecodeOutcome) -> (res: Result<bool, EffectError>)
    ensures
        outcome == DecodeOutcome::Finished ==> res == Ok::<bool, EffectError>(true),
        outcome == DecodeOutcome::Partial ==> res == Ok::<bool, EffectError>(false),
        outcome == DecodeOutcome::NoneFound ==> res == Err::<bool, EffectError>(
            EffectError::SignalUnrecoverable,
        ),
{
    match outcome {
        DecodeOutcome::Finished => Ok(true),
        DecodeOutcome::Partial => Ok(false),
        DecodeOutcome::NoneFound => Err(EffectError::SignalUnrecoverable),
    }
}

/// The effects pipeline: applies the ghost mixer and the noise injector to
/// an encoded waveform between the caller's encode and decode steps.
pub struct SSTVProcessor {
    pub params: ProcessingParams,
    pub noise_processor: NoiseProcessor,
    pub retarder_processor: RetarderProcessor,
}

impl SSTVProcessor {
    /// A pipeline with default parameters.
    pub fn new() -> (p: Self)
        ensures
            p.params.wf(),
            p.params == (ProcessingParams {
                noise: NoiseParams { level: 0, env: EnvelopeKind::Const, repeat: 1000 },
                retarder: RetarderParams {
                    level: 300,
                    env: EnvelopeKind::Const,
                    repeat: 1000,
                    delay_ms: 0,
                },
            }),
            p.noise_processor.params == p.params.noise,
            p.retarder_processor.params == p.params.retarder,
    {
        SSTVProcessor {
            params: ProcessingParams::default(),
            noise_processor: NoiseProcessor::new(),
            retarder_processor: RetarderProcessor::new(),
        }
    }

    /// A pipeline with the given parameters, clamped into their accepted
    /// ranges.
    pub fn new_with_params(params: ProcessingParams) -> (p: Self)
        ensures
            p.params.wf(),
            p.noise_processor.params == p.params.noise,
            p.retarder_processor.params == p.params.retarder,
            p.params.noise.level == if params.noise.level > 100 { 100u8 } else { params.noise.level },
            p.params.noise.env == params.noise.env,
            p.params.noise.repeat == clamped_repeat(params.noise.repeat),
            p.params.retarder.level == if params.retarder.level > LEVEL_MAX {
                LEVEL_MAX
            } else {
                params.retarder.level
            },
            p.params.retarder.env == params.retarder.env,
            p.params.retarder.repeat == clamped_repeat(params.retarder.repeat),
            p.params.retarder.delay_ms == params.retarder.delay_ms,
    {
        let noise_processor = NoiseProcessor::new_with_params(params.noise);
        let retarder_processor = RetarderProcessor::new_with_params(params.retarder);
        SSTVProcessor {
            params: ProcessingParams {
                noise: noise_processor.params,
                retarder: retarder_processor.params,
            },
            noise_processor,
            retarder_processor,
        }
    }

    /// Runs the effects stage of one pipeline pass over an encoded waveform:
    /// the ghost waveform, if one is supplied, is mixed in first, then noise
    /// is injected. The caller encodes the primary and ghost images to
    /// samples beforehand and decodes the degraded result afterwards. The
    /// only failure is a ghost that encoded to an empty waveform, and a
    /// failed run leaves the signal untouched.
    pub fn process(&mut self, samples: &mut Vec<i64>, ghost_samples: Option<&Vec<i64>>) -> (res:
        Result<(), EffectError>)
        requires
            old(self).params.wf(),
            valid_signal(old(samples)@),
            ghost_samples matches Some(g) ==> valid_signal(g@),
            ghost_samples matches Some(g) ==> delay_samples_spec(
                old(self).params.retarder.delay_ms as int,
            ) + g@.len() + old(samples)@.len() <= usize::MAX,
        ensures
            final(self).params == old(self).params,
            final(self).noise_processor.params == old(self).params.noise,
            final(self).retarder_processor.params == old(self).params.retarder,
            final(samples)@.len() == old(samples)@.len(),
            valid_signal(final(samples)@),
            res is Err <==> (old(self).params.retarder.level > 0 && ghost_samples is Some
                && ghost_samples->Some_0@.len() == 0),
            res is Err ==> res == Err::<(), EffectError>(EffectError::EmptyGhostWaveform)
                && final(samples)@ == old(samples)@,
            old(self).params.noise.level == 0 && (ghost_samples is None
                || old(self).params.retarder.level == 0) ==> final(samples)@ == old(samples)@,
            old(self).params.noise.level == 0 && old(self).params.retarder.level > 0
                && ghost_samples is Some && ghost_samples->Some_0@.len() > 0
                && old(self).params.retarder.env != EnvelopeKind::Rand ==> forall|i: int|
                0 <= i < old(samples)@.len() ==> #[trigger] final(samples)@[i] == mixed_sample(
                    old(samples)@[i] as int,
                    padded_ghost(
                        ghost_samples->Some_0@,
                        delay_samples_spec(old(self).params.retarder.delay_ms as int),
                        old(samples)@.len() as int,
                    ),
                    i,
                    old(samples)@.len() as int,
                    old(self).params.retarder.level as int,
                    old(self).params.retarder.repeat as int,
                    old(self).params.retarder.env,
                ),
            ghost_samples is None || old(self).params.retarder.level == 0 ==> (forall|i: int|
                0 <= i < old(samples)@.len() ==> old(samples)@[i] - 6 * sigma_spec(
                    old(samples)@,
                    old(self).params.noise.level as int,
                ) <= #[trigger] final(samples)@[i] <= old(samples)@[i] + 6 * sigma_spec(
                    old(samples)@,
                    old(self).params.noise.level as int,
                )),
    {
        self.noise_processor = NoiseProcessor { params: self.params.noise };
        self.retarder_processor = RetarderProcessor { params: self.params.retarder };

        match ghost_samples {
            Some(g) => {
                let r = self.retarder_processor.apply_retarder(samples, g);
                if let Err(e) = r {
                    return Err(e);
                }
            },
            None => {},
        }

        let r2 = self.noise_processor.apply_noise(samples);
        if let Err(e) = r2 {
            return Err(e);
        }
        Ok(())
    }

    /// Read access to the noise injector.
    pub fn noise_processor(&self) -> (r: &NoiseProcessor)
        ensures
            *r == self.noise_processor,
    {
        &self.noise_processor
    }

    /// Mutable access to the noise injector.
    pub fn noise_processor_mut(&mut self) -> (r: &mut NoiseProcessor)
        ensures
            *r == old(self).noise_processor,
            *final(self) == (SSTVProcessor {
                params: old(self).params,
                noise_processor: *final(r),
                retarder_processor: old(self).retarder_processor,
            }),
    {
        &mut self.noise_processor
    }

    /// Read access to the ghost mixer.
    pub fn retarder_processor(&self) -> (r: &RetarderProcessor)
        ensures
            *r == self.retarder_processor,
    {
        &self.retarder_processor
    }

    /// Mutable access to the ghost mixer.
    pub fn retarder_processor_mut(&mut self) -> (r: &mut RetarderProcessor)
        ensures
            *r == old(self).retarder_processor,
            *final(self) == (SSTVProcessor {
                params: old(self).params,
                noise_processor: old(self).noise_processor,
                retarder_processor: *final(r),
            }),
    {
        &mut self.retarder_processor
    }

    /// Replaces the noise configuration, clamped into range, in both the
    /// stored parameters and the injector.
    pub fn update_noise_params(&mut self, params: NoiseParams)
        ensures
            final(self).params.noise == final(self).noise_processor.params,
            final(self).params.noise.wf(),
            final(self).params.noise.level == if params.level > 100 { 100u8 } else { params.level },
            final(self).params.noise.env == params.env,
            final(self).params.noise.repeat == clamped_repeat(params.repeat),
            final(self).params.retarder == old(self).params.retarder,
            final(self).retarder_processor == old(self).retarder_processor,
    {
        let np = NoiseProcessor::new_with_params(params);
        self.params.noise = np.params;
        self.noise_processor = np;
    }

    /// Replaces the ghost configuration, clamped into range, in both the
    /// stored parameters and the mixer.
    pub fn update_retarder_params(&mut self, params: RetarderParams)
        ensures
            final(self).params.retarder == final(self).retarder_processor.params,
            final(self).params.retarder.wf(),
            final(self).params.retarder.level == if params.level > LEVEL_MAX {
                LEVEL_MAX
            } else {
                params.level
            },
            final(self).params.retarder.env == params.env,
            final(self).params.retarder.repeat == clamped_repeat(params.repeat),
            final(self).params.retarder.delay_ms == params.delay_ms,
            final(self).params.noise == old(self).params.noise,
            final(self).noise_processor == old(self).noise_processor,
    {
        let rp = RetarderProcessor::new_with_params(params);
        self.params.retarder = rp.params;
        self.retarder_processor = rp;
    }

    /// A readable summary of both effect settings.
    pub fn describe(&self) -> (r: String)
        requires
            self.noise_processor.params.wf(),
            self.retarder_processor.params.wf(),
        ensures
            r@ == "effects pipeline\n"@ + noise_describe_spec(self.noise_processor.params) + "\n"@
                + retarder_describe_spec(self.retarder_processor.params),
    {
        let mut s = String::from_str("effects pipeline\n");
        let nd = self.noise_processor.describe();
        s.append(nd.as_str());
        s.append("\n");
        let rd = self.retarder_processor.describe();
        s.append(rd.as_str());
        proof {
            assert(s@ =~= "effects pipeline\n"@ + noise_describe_spec(self.noise_processor.params)
                + "\n"@ + retarder_describe_spec(self.retarder_processor.params));
        }
        s
    }

    /// Whether any effect is enabled.
    pub fn has_effects(&self) -> (r: bool)
        ensures
            r == (self.noise_processor.params.level > 0 || self.retarder_processor.params.level
                > 0),
    {
        self.noise_processor.is_enabled() || self.retarder_processor.is_enabled()
    }
}

} // verus!
