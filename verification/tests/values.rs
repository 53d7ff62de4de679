//! The carried bit patterns against the floats they stand for, the durations,
//! the configuration edges and the error messages.

use decibri_aec::acquire::LOCAL_ONLY_CONFIDENCE_BITS;
use decibri_aec::coarse::{
    COARSE_CONFIDENT_CORR_BITS, COARSE_FAR_ACTIVE_FLOOR_BITS, COARSE_SIDELOBE_RATIO_BITS,
    COARSE_VARIANCE_FLOOR_BITS,
};
use decibri_aec::delay::{CONFIDENCE_THRESHOLD_BITS, FRAME_ENERGY_FLOOR_BITS};
use decibri_aec::error::available_model_names;
use decibri_aec::sample::{sanitize_into, MEASURE_INFINITY, SAMPLE_INFINITY, SAMPLE_ONE};
use decibri_aec::tau::{
    DTD_HANDOVER_COHERENCE_BITS, DTD_HOLD_DEPTH_BITS, ERLE_POWER_FLOOR_BITS, FULL_SCALE_BITS,
    MIN_STEP_FRACTION_BITS, MIN_SUPPRESSION_GAIN_BITS, PROTECT_COHERENCE_BITS, STEP_SCALE_FLOOR_BITS, TRANSFER_MIN_ADVANTAGE_BITS,
};
use decibri_aec::timing::{
    fade_ms_to_samples, ms_to_samples, short_ms_to_samples, short_ms_to_samples_at_least_one,
};
use decibri_aec::{AecConfig, AecError, AecModel, Measure, Sample};

const VALUES: [f64; 13] = [
    f64::NEG_INFINITY,
    -2.5,
    -1.0,
    -1e-30,
    -0.0,
    0.0,
    1e-30,
    0.25,
    1.0,
    2.5,
    1e30,
    f64::INFINITY,
    f64::NAN,
];

fn sample(value: f32) -> Sample {
    Sample {
        bits: value.to_bits(),
    }
}

fn measure(value: f64) -> Measure {
    Measure {
        bits: value.to_bits(),
    }
}

#[test]
fn bit_constants_name_their_floats() {
    assert_eq!(f32::from_bits(SAMPLE_INFINITY), f32::INFINITY);
    assert_eq!(f32::from_bits(SAMPLE_ONE), 1.0);
    assert_eq!(f64::from_bits(MEASURE_INFINITY), f64::INFINITY);
    assert_eq!(f64::from_bits(CONFIDENCE_THRESHOLD_BITS), 10.0);
    assert_eq!(f64::from_bits(FRAME_ENERGY_FLOOR_BITS), 1e-8);
    assert_eq!(f64::from_bits(LOCAL_ONLY_CONFIDENCE_BITS), 20.0);
    assert_eq!(f64::from_bits(COARSE_CONFIDENT_CORR_BITS), 0.25);
    assert_eq!(f64::from_bits(COARSE_SIDELOBE_RATIO_BITS), 1.5);
    assert_eq!(
        f64::from_bits(COARSE_FAR_ACTIVE_FLOOR_BITS),
        3.162_277_7e-4
    );
    assert_eq!(f64::from_bits(COARSE_VARIANCE_FLOOR_BITS), 1e-12);
    assert_eq!(f64::from_bits(DTD_HOLD_DEPTH_BITS), 10.0);
    assert_eq!(f64::from_bits(STEP_SCALE_FLOOR_BITS), 0.01);
    assert_eq!(f64::from_bits(FULL_SCALE_BITS), 1.0);
    assert_eq!(f64::from_bits(PROTECT_COHERENCE_BITS), 0.2);
    assert_eq!(f64::from_bits(TRANSFER_MIN_ADVANTAGE_BITS), 0.1);
    assert_eq!(f64::from_bits(DTD_HANDOVER_COHERENCE_BITS), 0.81);
    assert_eq!(f64::from_bits(ERLE_POWER_FLOOR_BITS), 1e-10);
    assert_eq!(f64::from_bits(MIN_STEP_FRACTION_BITS), 0.02);
    assert_eq!(f64::from_bits(MIN_SUPPRESSION_GAIN_BITS), 0.1);
}

#[test]
fn sample_order_is_the_float_order() {
    for a in VALUES {
        let a = a as f32;
        assert_eq!(sample(a).is_finite(), a.is_finite(), "{a}");
        assert_eq!(sample(a).abs().bits, a.abs().to_bits(), "{a}");
        for b in VALUES {
            let b = b as f32;
            assert_eq!(sample(a).is_below(sample(b)), a < b, "{a} < {b}");
        }
    }
    assert_eq!(Sample::silence(), sample(0.0));
    assert_eq!(Sample::unity(), sample(1.0));
}

#[test]
fn measure_order_is_the_float_order() {
    for a in VALUES {
        for b in VALUES {
            assert_eq!(measure(a).is_below(measure(b)), a < b, "{a} < {b}");
            assert_eq!(measure(a).is_at_most(measure(b)), a <= b, "{a} <= {b}");
        }
    }
    assert_eq!(Measure::zero(), measure(0.0));
}

#[test]
fn sanitizing_replaces_only_the_non_finite_and_does_so_once() {
    let raw: Vec<Sample> = [1.0, f32::NAN, -0.5, f32::INFINITY, f32::NEG_INFINITY, -0.0]
        .iter()
        .map(|&value| sample(value))
        .collect();
    let mut once = vec![sample(7.0)];
    sanitize_into(&raw, &mut once);
    let expected: Vec<Sample> = [1.0, 0.0, -0.5, 0.0, 0.0, -0.0]
        .iter()
        .map(|&value| sample(value))
        .collect();
    assert_eq!(once, expected);
    let mut twice = Vec::new();
    sanitize_into(&once, &mut twice);
    assert_eq!(twice, once);
}

#[test]
fn durations_truncate_toward_zero() {
    assert_eq!(ms_to_samples(250, 16000), 4000);
    assert_eq!(ms_to_samples(1, 999), 0);
    assert_eq!(ms_to_samples(3, 11025), 33);
    assert_eq!(ms_to_samples(u16::MAX, u32::MAX), 281_470_681_677);
    assert_eq!(fade_ms_to_samples(200, 48000), 9600);
    assert_eq!(
        fade_ms_to_samples(u32::MAX, u32::MAX),
        18_446_744_065_119_617
    );
    assert_eq!(short_ms_to_samples(8, 44100), 352);
    assert_eq!(short_ms_to_samples(1, 999), 0);
    assert_eq!(short_ms_to_samples_at_least_one(1, 999), 1);
    assert_eq!(short_ms_to_samples_at_least_one(4, 16000), 64);
}

#[test]
fn a_longer_duration_is_never_fewer_samples() {
    for rate in [8000, 11025, 16000, 44100, 48000] {
        for ms in 0..2000u16 {
            assert!(ms_to_samples(ms, rate) <= ms_to_samples(ms + 1, rate));
        }
    }
}

#[test]
fn every_field_is_accepted_at_its_bounds() {
    for rate in [8000, 48000] {
        let mut config = AecConfig::default();
        config.sample_rate = rate;
        assert!(config.validate().is_ok());
    }
    for tail in [16, 500] {
        let mut config = AecConfig::default();
        config.tail_ms = tail;
        assert!(config.validate().is_ok());
    }
    for delay in [10, 1000] {
        let mut config = AecConfig::default();
        config.max_echo_delay_ms = delay;
        assert!(config.validate().is_ok());
    }
    for ceiling in [250, 2000] {
        let mut config = AecConfig::default();
        config.max_search_delay_ms = ceiling;
        assert!(config.validate().is_ok());
    }
}

#[test]
fn every_field_is_rejected_past_its_bounds() {
    for rate in [0, 7999, 48001, u32::MAX] {
        let mut config = AecConfig::default();
        config.sample_rate = rate;
        let err = config.validate().unwrap_err();
        assert!(matches!(err, AecError::SampleRateOutOfRange { requested } if requested == rate));
        assert_eq!(
            err.message(),
            "sample rate must be between 8000 and 48000 Hz"
        );
    }
    for tail in [0, 15, 501] {
        let mut config = AecConfig::default();
        config.tail_ms = tail;
        let err = config.validate().unwrap_err();
        assert!(matches!(err, AecError::TailOutOfRange { requested_ms } if requested_ms == tail));
        assert_eq!(
            err.message(),
            "filter tail must be between 16 and 500 milliseconds"
        );
    }
    for delay in [0, 9, 1001] {
        let mut config = AecConfig::default();
        config.max_echo_delay_ms = delay;
        let err = config.validate().unwrap_err();
        assert!(
            matches!(err, AecError::EchoDelayOutOfRange { requested_ms } if requested_ms == delay)
        );
        assert_eq!(
            err.message(),
            "maximum echo delay must be between 10 and 1000 milliseconds"
        );
    }
    for ceiling in [0, 249, 2001] {
        let mut config = AecConfig::default();
        config.max_search_delay_ms = ceiling;
        let err = config.validate().unwrap_err();
        assert!(matches!(
            err,
            AecError::SearchDelayOutOfRange { requested_ms, fine_window_ms }
                if requested_ms == ceiling && fine_window_ms == 250
        ));
        assert_eq!(
            err.message(),
            "coarse search ceiling must be between the fine search window (250 ms) and 2000 milliseconds"
        );
    }
}

#[test]
fn the_first_fault_in_order_is_the_one_reported() {
    let mut config = AecConfig::default();
    config.max_search_delay_ms = 1;
    config.max_echo_delay_ms = 1;
    assert!(matches!(
        config.validate(),
        Err(AecError::EchoDelayOutOfRange { .. })
    ));
    config.tail_ms = 1;
    assert!(matches!(
        config.validate(),
        Err(AecError::TailOutOfRange { .. })
    ));
    config.sample_rate = 1;
    assert!(matches!(
        config.validate(),
        Err(AecError::SampleRateOutOfRange { .. })
    ));
}

#[test]
fn a_search_window_of_any_length_is_written_in_decimal() {
    for (window, text) in [(10u16, "10"), (99, "99"), (305, "305"), (1000, "1000")] {
        let mut config = AecConfig::default();
        config.max_echo_delay_ms = window;
        config.max_search_delay_ms = window - 1;
        let expected = format!(
            "coarse search ceiling must be between the fine search window ({text} ms) and 2000 milliseconds"
        );
        assert_eq!(config.validate().unwrap_err().message(), expected);
    }
}

#[test]
fn an_unknown_model_is_named_back() {
    for name in ["tao", "", "Tau", "tau "] {
        let err = AecModel::parse_name(name).unwrap_err();
        assert_eq!(
            err.message(),
            format!("model must be one of: 'tau'; got '{name}'")
        );
    }
    assert_eq!(available_model_names(), "'tau'");
    assert_eq!(AecModel::parse_name("tau").unwrap(), AecModel::Tau);
}

#[test]
fn a_hint_is_clamped_to_the_search_window() {
    let mut config = AecConfig::default();
    assert_eq!(config.hint_in_window(), None);
    config.delay_hint_ms = Some(120);
    assert_eq!(config.hint_in_window(), Some(120));
    config.delay_hint_ms = Some(250);
    assert_eq!(config.hint_in_window(), Some(250));
    config.delay_hint_ms = Some(9000);
    assert_eq!(config.hint_in_window(), Some(250));
    assert!(config.validate().is_ok());
}
