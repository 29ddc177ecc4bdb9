use sstv_processor::envelope::EnvelopeKind;
use sstv_processor::noise::{NoiseParams, NoiseProcessor};
use sstv_processor::processor::{classify_decode, DecodeOutcome, ProcessingParams, SSTVProcessor};
use sstv_processor::retarder::{RetarderParams, RetarderProcessor};
use sstv_processor::text::decimal_string;
use sstv_processor::EffectError;

#[test]
fn envelope_names() {
    assert_eq!(EnvelopeKind::Const.name(), "Const");
    assert_eq!(EnvelopeKind::Sin.name(), "Sin");
    assert_eq!(EnvelopeKind::Tri.name(), "Tri");
    assert_eq!(EnvelopeKind::Saw.name(), "Saw");
    assert_eq!(EnvelopeKind::Square.name(), "Square");
    assert_eq!(EnvelopeKind::Rand.name(), "Rand");
}

#[test]
fn noise_setters_clamp() {
    let mut p = NoiseProcessor::new();
    assert!(!p.is_enabled());
    p.set_level(255);
    assert_eq!(p.params.level, 100);
    assert!(p.is_enabled());
    p.set_level(40);
    assert_eq!(p.params.level, 40);
    p.set_repeat(5);
    assert_eq!(p.params.repeat, 100);
    p.set_repeat(2_000_000_000);
    assert_eq!(p.params.repeat, 1_000_000_000);
    p.set_repeat(2500);
    assert_eq!(p.params.repeat, 2500);
    p.set_envelope(EnvelopeKind::Square);
    assert_eq!(p.params.env, EnvelopeKind::Square);
}

#[test]
fn retarder_setters_clamp() {
    let mut p = RetarderProcessor::new();
    assert_eq!(p.params.level, 300);
    assert!(p.is_enabled());
    p.set_level(2000);
    assert_eq!(p.params.level, 1000);
    p.set_level(0);
    assert!(!p.is_enabled());
    p.set_repeat(7);
    assert_eq!(p.params.repeat, 100);
    p.set_delay_ms(1500);
    assert_eq!(p.params.delay_ms, 1500);
    p.set_envelope(EnvelopeKind::Rand);
    assert_eq!(p.params.env, EnvelopeKind::Rand);
}

#[test]
fn delay_sample_conversion() {
    let mut p = RetarderProcessor::new();
    p.set_delay_ms(1000);
    assert_eq!(p.get_delay_samples(), 44_100);
    p.set_delay_ms(0);
    assert_eq!(p.get_delay_samples(), 0);
    p.set_delay_ms(1);
    assert_eq!(p.get_delay_samples(), 44);
    p.set_delay_ms(10);
    assert_eq!(p.estimate_output_length(1000), 1441);
}

#[test]
fn snr_formula_values() {
    let mut p = NoiseProcessor::new();
    assert_eq!(p.calculate_snr_db(), None);
    p.set_level(100);
    assert_eq!(p.calculate_snr_db(), Some(10));
    p.set_level(1);
    assert_eq!(p.calculate_snr_db(), Some(2980));
    p.set_level(50);
    assert_eq!(p.calculate_snr_db(), Some(1510));
}

#[test]
fn decimal_rendering() {
    assert_eq!(decimal_string(0), "0");
    assert_eq!(decimal_string(7), "7");
    assert_eq!(decimal_string(10), "10");
    assert_eq!(decimal_string(44100), "44100");
    assert_eq!(decimal_string(1_000_000_000), "1000000000");
}

#[test]
fn describe_strings() {
    let mut noise = NoiseProcessor::new();
    assert_eq!(noise.describe(), "noise disabled");
    noise.set_level(50);
    assert_eq!(
        noise.describe(),
        "noise level 50%, envelope Const, repeat 1000, snr 1510 cdB"
    );

    let mut retarder = RetarderProcessor::new();
    assert_eq!(
        retarder.describe(),
        "retarder level 300 of 1000, envelope Const, repeat 1000, delay 0 ms"
    );
    retarder.set_level(0);
    assert_eq!(retarder.describe(), "retarder disabled");

    let processor = SSTVProcessor::new();
    assert_eq!(
        processor.describe(),
        "effects pipeline\nnoise disabled\nretarder level 300 of 1000, envelope Const, repeat 1000, delay 0 ms"
    );
}

#[test]
fn error_messages() {
    assert_eq!(
        EffectError::EmptyGhostWaveform.message(),
        "ghost image encoded to an empty waveform"
    );
    assert_eq!(
        EffectError::SignalUnrecoverable.message(),
        "signal unrecoverable: reduce the noise or retarder strength"
    );
}

#[test]
fn decode_classification() {
    assert_eq!(classify_decode(DecodeOutcome::Finished), Ok(true));
    assert_eq!(classify_decode(DecodeOutcome::Partial), Ok(false));
    assert_eq!(
        classify_decode(DecodeOutcome::NoneFound),
        Err(EffectError::SignalUnrecoverable)
    );
}

#[test]
fn processor_defaults_and_updates() {
    let mut p = SSTVProcessor::new();
    assert_eq!(p.params.noise.level, 0);
    assert_eq!(p.params.retarder.level, 300);
    assert!(p.has_effects());

    p.update_noise_params(NoiseParams {
        level: 250,
        env: EnvelopeKind::Sin,
        repeat: 3,
    });
    assert_eq!(p.params.noise.level, 100);
    assert_eq!(p.params.noise.repeat, 100);
    assert_eq!(p.noise_processor().params, p.params.noise);

    p.update_retarder_params(RetarderParams {
        level: 0,
        env: EnvelopeKind::Saw,
        repeat: 1000,
        delay_ms: 5,
    });
    assert_eq!(p.params.retarder.level, 0);
    assert_eq!(p.retarder_processor().params, p.params.retarder);
    assert!(p.has_effects());

    p.update_noise_params(NoiseParams {
        level: 0,
        env: EnvelopeKind::Const,
        repeat: 1000,
    });
    assert!(!p.has_effects());

    p.noise_processor_mut().set_level(10);
    assert!(p.has_effects());
    p.retarder_processor_mut().set_level(700);
    assert_eq!(p.retarder_processor().params.level, 700);
}

#[test]
fn processor_constructor_clamps() {
    let p = SSTVProcessor::new_with_params(ProcessingParams {
        noise: NoiseParams {
            level: 200,
            env: EnvelopeKind::Tri,
            repeat: 1,
        },
        retarder: RetarderParams {
            level: 5000,
            env: EnvelopeKind::Square,
            repeat: u64::MAX,
            delay_ms: 20,
        },
    });
    assert_eq!(p.params.noise.level, 100);
    assert_eq!(p.params.noise.repeat, 100);
    assert_eq!(p.params.retarder.level, 1000);
    assert_eq!(p.params.retarder.repeat, 1_000_000_000);
    assert_eq!(p.params.retarder.delay_ms, 20);
}

#[test]
fn pipeline_process_runs_effects_in_order() {
    // With noise disabled and a deterministic ghost, the pipeline output is
    // exactly the mixed signal; with everything disabled it is the input.
    let mut p = SSTVProcessor::new_with_params(ProcessingParams {
        noise: NoiseParams {
            level: 0,
            env: EnvelopeKind::Const,
            repeat: 1000,
        },
        retarder: RetarderParams {
            level: 1000,
            env: EnvelopeKind::Const,
            repeat: 1000,
            delay_ms: 0,
        },
    });
    let mut samples = vec![0i64; 5];
    let ghost = vec![100_000, 200_000, 300_000, 400_000, 500_000];
    assert!(p.process(&mut samples, Some(&ghost)).is_ok());
    assert_eq!(samples, ghost);

    let mut p2 = SSTVProcessor::new();
    let mut samples2 = vec![123_456i64, -654_321];
    let before = samples2.clone();
    assert!(p2.process(&mut samples2, None).is_ok());
    assert_eq!(samples2, before);

    // An enabled retarder with an empty ghost waveform is the pipeline's
    // one failure, and it leaves the signal untouched.
    let empty: Vec<i64> = Vec::new();
    let mut samples3 = vec![1000i64, 2000];
    assert_eq!(
        p.process(&mut samples3, Some(&empty)),
        Err(EffectError::EmptyGhostWaveform)
    );
    assert_eq!(samples3, vec![1000, 2000]);
}

#[test]
fn rand_envelope_draws_stay_in_range() {
    let p = NoiseProcessor::new_with_params(NoiseParams {
        level: 100,
        env: EnvelopeKind::Rand,
        repeat: 1000,
    });
    let mut samples = vec![500_000i64; 2000];
    assert!(p.apply_noise(&mut samples).is_ok());
    assert!(samples.iter().all(|&s| -1_000_000 <= s && s <= 1_000_000));
    for _ in 0..200 {
        let w = EnvelopeKind::Rand.factor(3, 10, 1000);
        assert!(w < 1_000_000);
    }
}
