use sstv_processor::envelope::EnvelopeKind;
use sstv_processor::noise::{inject_sample, NoiseParams, NoiseProcessor};
use sstv_processor::retarder::{RetarderParams, RetarderProcessor};
use sstv_processor::EffectError;

const UNIT: i64 = 1_000_000;

fn constant_signal(value: i64, len: usize) -> Vec<i64> {
    vec![value; len]
}

#[test]
fn noise_level_zero_is_identity() {
    let p = NoiseProcessor::new_with_params(NoiseParams {
        level: 0,
        env: EnvelopeKind::Sin,
        repeat: 2500,
    });
    let mut samples = vec![-UNIT, -250_000, 0, 250_000, UNIT];
    let before = samples.clone();
    assert!(p.apply_noise(&mut samples).is_ok());
    assert_eq!(samples, before);
}

#[test]
fn retarder_level_zero_is_identity() {
    let p = RetarderProcessor::new_with_params(RetarderParams {
        level: 0,
        env: EnvelopeKind::Tri,
        repeat: 3000,
        delay_ms: 250,
    });
    let mut samples = vec![-UNIT, -250_000, 0, 250_000, UNIT];
    let ghost = vec![500_000, -500_000];
    let before = samples.clone();
    assert!(p.apply_retarder(&mut samples, &ghost).is_ok());
    assert_eq!(samples, before);
}

#[test]
fn envelope_values_at_start() {
    // Length at least two, repeat factor one period per buffer, index zero.
    for len in [2usize, 3, 10, 1000] {
        assert_eq!(EnvelopeKind::Const.factor(0, len, 1000), UNIT as u64);
        assert_eq!(EnvelopeKind::Sin.factor(0, len, 1000), (UNIT / 2) as u64);
        assert_eq!(EnvelopeKind::Saw.factor(0, len, 1000), 0);
        assert_eq!(EnvelopeKind::Square.factor(0, len, 1000), UNIT as u64);
        // The triangle wave 1 - |2 frac(x) - 1| starts at zero.
        assert_eq!(EnvelopeKind::Tri.factor(0, len, 1000), 0);
    }
}

#[test]
fn envelope_single_sample_buffer_is_defined() {
    // A one-sample buffer is the position-zero edge case for every kind.
    let kinds = [
        EnvelopeKind::Const,
        EnvelopeKind::Sin,
        EnvelopeKind::Tri,
        EnvelopeKind::Saw,
        EnvelopeKind::Square,
        EnvelopeKind::Rand,
    ];
    for kind in kinds {
        for rep in [100u64, 1000, 7000, 1_000_000_000] {
            let w = kind.factor(0, 1, rep);
            assert!(w <= UNIT as u64);
        }
    }
}

#[test]
fn envelope_quarter_period_values() {
    // Index 1 of a 5-sample buffer at repeat 1.0 sits a quarter period in.
    assert_eq!(EnvelopeKind::Saw.factor(1, 5, 1000), 250_000);
    assert_eq!(EnvelopeKind::Tri.factor(1, 5, 1000), 500_000);
    assert_eq!(EnvelopeKind::Sin.factor(1, 5, 1000), UNIT as u64);
    assert_eq!(EnvelopeKind::Square.factor(1, 5, 1000), UNIT as u64);
    // Three quarters in, the square wave is off.
    assert_eq!(EnvelopeKind::Square.factor(3, 5, 1000), 0);
    assert_eq!(EnvelopeKind::Sin.factor(3, 5, 1000), 0);
}

#[test]
fn inject_sample_exact_values() {
    // Full weight passes the draw through; half weight halves it.
    assert_eq!(inject_sample(0, 100_000, 1_000_000), 100_000);
    assert_eq!(inject_sample(0, -100_000, 500_000), -50_000);
    // The sum clamps at the nominal range on both sides.
    assert_eq!(inject_sample(900_000, 600_000, 1_000_000), 1_000_000);
    assert_eq!(inject_sample(-900_000, -600_000, 1_000_000), -1_000_000);
    // A zero draw changes nothing, and magnitudes round toward zero.
    assert_eq!(inject_sample(123, 0, 777_000), 123);
    assert_eq!(inject_sample(0, 999, 500_000), 499);
    assert_eq!(inject_sample(0, -999, 500_000), -499);
}

#[test]
fn noise_on_silence_stays_exactly_silent() {
    // A silent signal has zero root-mean-square, so the derived noise
    // amplitude is exactly zero and nothing changes.
    let p = NoiseProcessor::new_with_params(NoiseParams {
        level: 50,
        env: EnvelopeKind::Const,
        repeat: 1000,
    });
    let mut samples = constant_signal(0, 1000);
    assert!(p.apply_noise(&mut samples).is_ok());
    assert!(samples.iter().all(|&s| s == 0));
}

#[test]
fn noise_output_is_clamped_at_full_level() {
    let p = NoiseProcessor::new_with_params(NoiseParams {
        level: 100,
        env: EnvelopeKind::Const,
        repeat: 1000,
    });
    let mut samples = constant_signal(900_000, 5000);
    assert!(p.apply_noise(&mut samples).is_ok());
    assert!(samples.iter().all(|&s| -UNIT <= s && s <= UNIT));
}

fn empirical_noise_rms(level: u8, base: i64, len: usize) -> f64 {
    let p = NoiseProcessor::new_with_params(NoiseParams {
        level,
        env: EnvelopeKind::Const,
        repeat: 1000,
    });
    let mut samples = constant_signal(base, len);
    assert!(p.apply_noise(&mut samples).is_ok());
    let sum_sq: f64 = samples
        .iter()
        .map(|&s| {
            let d = (s - base) as f64;
            d * d
        })
        .sum();
    (sum_sq / len as f64).sqrt()
}

#[test]
fn noise_rms_tracks_the_snr_formula() {
    // The empirical injected-noise root-mean-square should match
    // rms_signal / 10^(snr_db / 20) within ten percent, and rise with the
    // level.
    let base: i64 = 100_000;
    let len = 8000usize;
    let mut previous = 0.0f64;
    for level in [10u8, 50, 90] {
        let snr_db = 30.0 * (1.0 - level as f64 / 100.0) + 0.1;
        let expected = base as f64 / 10f64.powf(snr_db / 20.0);
        let measured = empirical_noise_rms(level, base, len);
        assert!(
            (measured - expected).abs() <= 0.10 * expected,
            "level {}: measured {} expected {}",
            level,
            measured,
            expected
        );
        assert!(measured >= previous);
        previous = measured;
    }
}

#[test]
fn retarder_ghost_replaces_silent_primary() {
    // A full-strength constant-envelope ghost of the same length, with no
    // delay and unit repeat, lands in a silent primary signal unchanged.
    let p = RetarderProcessor::new_with_params(RetarderParams {
        level: 1000,
        env: EnvelopeKind::Const,
        repeat: 1000,
        delay_ms: 0,
    });
    let mut samples = constant_signal(0, 5);
    let ghost = vec![100_000, 200_000, 300_000, 400_000, 500_000];
    assert!(p.apply_retarder(&mut samples, &ghost).is_ok());
    assert_eq!(samples, ghost);
}

#[test]
fn retarder_delay_prefix_is_untouched() {
    // With a ten-millisecond delay at 44100 samples per second, the first
    // 441 output samples get no ghost contribution.
    let p = RetarderProcessor::new_with_params(RetarderParams {
        level: 1000,
        env: EnvelopeKind::Const,
        repeat: 1000,
        delay_ms: 10,
    });
    assert_eq!(p.get_delay_samples(), 441);
    let mut samples = constant_signal(400_000, 1000);
    let ghost = constant_signal(500_000, 10);
    assert!(p.apply_retarder(&mut samples, &ghost).is_ok());
    for (i, &s) in samples.iter().enumerate() {
        if i < 441 {
            assert_eq!(s, 400_000, "index {}", i);
        } else if i < 451 {
            assert_eq!(s, 900_000, "index {}", i);
        } else {
            assert_eq!(s, 400_000, "index {}", i);
        }
    }
}

#[test]
fn retarder_output_is_clamped() {
    let p = RetarderProcessor::new_with_params(RetarderParams {
        level: 1000,
        env: EnvelopeKind::Const,
        repeat: 1000,
        delay_ms: 0,
    });
    let mut samples = constant_signal(900_000, 100);
    let ghost = constant_signal(UNIT, 100);
    assert!(p.apply_retarder(&mut samples, &ghost).is_ok());
    assert!(samples.iter().all(|&s| s == UNIT));

    let mut low = constant_signal(-900_000, 100);
    let ghost_neg = constant_signal(-UNIT, 100);
    assert!(p.apply_retarder(&mut low, &ghost_neg).is_ok());
    assert!(low.iter().all(|&s| s == -UNIT));
}

#[test]
fn retarder_empty_ghost_is_rejected() {
    let p = RetarderProcessor::new_with_params(RetarderParams {
        level: 500,
        env: EnvelopeKind::Const,
        repeat: 1000,
        delay_ms: 0,
    });
    let mut samples = constant_signal(0, 10);
    let ghost: Vec<i64> = Vec::new();
    assert_eq!(
        p.apply_retarder(&mut samples, &ghost),
        Err(EffectError::EmptyGhostWaveform)
    );
    assert!(samples.iter().all(|&s| s == 0));
}

#[test]
fn retarder_long_ghost_wraps_by_its_own_length() {
    // A ghost longer than the primary is not truncated; at double repeat the
    // stride reads every second ghost sample.
    let p = RetarderProcessor::new_with_params(RetarderParams {
        level: 1000,
        env: EnvelopeKind::Const,
        repeat: 2000,
        delay_ms: 0,
    });
    let mut samples = constant_signal(0, 3);
    let ghost = vec![100_000, 200_000, 300_000, 400_000, 500_000, 600_000];
    assert!(p.apply_retarder(&mut samples, &ghost).is_ok());
    assert_eq!(samples, vec![100_000, 300_000, 500_000]);
}

#[test]
fn retarder_half_level_halves_the_ghost() {
    let p = RetarderProcessor::new_with_params(RetarderParams {
        level: 500,
        env: EnvelopeKind::Const,
        repeat: 1000,
        delay_ms: 0,
    });
    let mut samples = constant_signal(0, 4);
    let ghost = vec![200_000, 400_000, -600_000, 800_000];
    assert!(p.apply_retarder(&mut samples, &ghost).is_ok());
    assert_eq!(samples, vec![100_000, 200_000, -300_000, 400_000]);
}
