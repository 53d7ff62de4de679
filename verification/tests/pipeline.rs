//! The engine end to end: the library's decisions and sample transport driven
//! by the floating-point arithmetic a host supplies, on synthesized streams.

use std::f64::consts::PI;

use decibri_aec::acquire::{DelayAcquirer, FINE_EDGE_GUARD_MS, MAX_REVERIFY_REJECTS};
use decibri_aec::coarse::{
    CoarseScan, CoarseScore, COARSE_MIN_FRAMES, COARSE_SIDELOBE_RATIO_BITS,
    COARSE_VARIANCE_FLOOR_BITS,
};
use decibri_aec::delay::{
    DelayEstimator, FineLock, FineObservation, FineScan, FrameUse, WindowSupport,
    CONFIDENCE_THRESHOLD_BITS, LOCK_MARGIN_SAMPLES,
};
use decibri_aec::engine::{derive_ring_capacity, GradedGate, OutputBlend};
use decibri_aec::fft::{build_bit_reversal, butterfly, mirror_index, permute, spectrum_len};
use decibri_aec::lead::{LEAD_BASELINE_BLOCKS, LEAD_STEP_BLOCKS, LEAD_WINDOW_BLOCKS};
use decibri_aec::tau::{
    bin_step, cap_share, gain_window, releases, BlockStep, CoherenceReading, GuardReading, Outlook,
    PathMove, PathReading, TauCanceller, BINS, BLOCK, DTD_ESTABLISH_BLOCKS, FFT_LEN,
};
use decibri_aec::timing::{fade_ms_to_samples, ms_to_samples};
use decibri_aec::track::TRACK_CYCLE_FRAMES;
use decibri_aec::{
    AecConfig, AecError, AecEvent, AecMetrics, AecModel, CancellerAction, CancellerMetrics,
    CaptureContinuity, DelayLockSource, DelayStatus, Measure, OutputTransitionPolicy,
    ReacquireTrigger, Sample, Suppression,
};

// ---- The host's floating-point side ------------------------------------------

fn sample(value: f32) -> Sample {
    Sample {
        bits: value.to_bits(),
    }
}

fn float(sample: Sample) -> f32 {
    f32::from_bits(sample.bits)
}

fn measure(value: f64) -> Measure {
    Measure {
        bits: value.to_bits(),
    }
}

fn double(measure: Measure) -> f64 {
    f64::from_bits(measure.bits)
}

fn samples(values: &[f32]) -> Vec<Sample> {
    values.iter().map(|&value| sample(value)).collect()
}

fn floats(values: &[Sample]) -> Vec<f32> {
    values.iter().map(|&value| float(value)).collect()
}

trait EchoCanceller {
    fn process(&mut self, near: &[f32], far: &[f32], out: &mut Vec<f32>) -> Result<(), AecError>;
    fn flush(&mut self, out: &mut Vec<f32>) -> Result<(), AecError>;
    fn latency_samples(&self) -> usize;
    fn reset(&mut self);
    fn metrics(&self) -> CancellerMetrics;
}

const TWO_PI: f64 = 2.0 * PI;
const HALF_PI: f64 = 0.5 * PI;

#[derive(Clone, Copy, Debug)]
struct Complex {
    re: f64,
    im: f64,
}

impl Complex {
    const ZERO: Complex = Complex { re: 0.0, im: 0.0 };

    fn new(re: f64, im: f64) -> Complex {
        Complex { re, im }
    }

    fn conj(self) -> Complex {
        Complex {
            re: self.re,
            im: -self.im,
        }
    }

    fn add(self, other: Complex) -> Complex {
        Complex {
            re: self.re + other.re,
            im: self.im + other.im,
        }
    }

    fn sub(self, other: Complex) -> Complex {
        Complex {
            re: self.re - other.re,
            im: self.im - other.im,
        }
    }

    fn mul(self, other: Complex) -> Complex {
        Complex {
            re: self.re * other.re - self.im * other.im,
            im: self.re * other.im + self.im * other.re,
        }
    }

    fn scale(self, factor: f64) -> Complex {
        Complex {
            re: self.re * factor,
            im: self.im * factor,
        }
    }
}

fn det_sin(x: f64) -> f64 {
    let k = (x / TWO_PI).round();
    let mut r = x - k * TWO_PI;
    if r > HALF_PI {
        r = PI - r;
    } else if r < -HALF_PI {
        r = -PI - r;
    }
    let coefficients = [
        -1.0 / 25_852_016_738_884_976_640_000.0,
        1.0 / 51_090_942_171_709_440_000.0,
        -1.0 / 121_645_100_408_832_000.0,
        1.0 / 355_687_428_096_000.0,
        -1.0 / 1_307_674_368_000.0,
        1.0 / 6_227_020_800.0,
        -1.0 / 39_916_800.0,
        1.0 / 362_880.0,
        -1.0 / 5_040.0,
        1.0 / 120.0,
        -1.0 / 6.0,
        1.0,
    ];
    horner(&coefficients, r * r) * r
}

fn det_cos(x: f64) -> f64 {
    let k = (x / TWO_PI).round();
    let mut r = (x - k * TWO_PI).abs();
    let mut sign = 1.0;
    if r > HALF_PI {
        r = PI - r;
        sign = -1.0;
    }
    let coefficients = [
        -1.0 / 1_124_000_727_777_607_680_000.0,
        1.0 / 2_432_902_008_176_640_000.0,
        -1.0 / 6_402_373_705_728_000.0,
        1.0 / 20_922_789_888_000.0,
        -1.0 / 87_178_291_200.0,
        1.0 / 479_001_600.0,
        -1.0 / 3_628_800.0,
        1.0 / 40_320.0,
        -1.0 / 720.0,
        1.0 / 24.0,
        -1.0 / 2.0,
        1.0,
    ];
    sign * horner(&coefficients, r * r)
}

fn horner(coefficients: &[f64; 12], x: f64) -> f64 {
    let mut p = coefficients[0];
    for &coefficient in &coefficients[1..] {
        p = p * x + coefficient;
    }
    p
}

#[derive(Clone, Copy)]
enum Direction {
    Forward,
    Inverse,
}

struct ComplexFft {
    n: usize,
    twiddles: Vec<Complex>,
    bit_reversal: Vec<usize>,
    inv_n: f64,
}

impl ComplexFft {
    fn new(n: usize) -> ComplexFft {
        assert!(
            n.is_power_of_two() && n <= 1 << 31,
            "FFT size must be a power of two, got {n}"
        );
        ComplexFft {
            n,
            twiddles: (0..n / 2).map(|r| root(r, n)).collect(),
            bit_reversal: build_bit_reversal(n),
            inv_n: 1.0 / n as f64,
        }
    }

    fn run(&self, buf: &mut Vec<Complex>, direction: Direction) {
        assert_eq!(buf.len(), self.n, "transform buffer must have length n");
        permute(buf, &self.bit_reversal);
        let mut span = 2;
        while span <= self.n {
            for index in 0..self.n / 2 {
                let step = butterfly(self.n, span, index);
                let twiddle = match direction {
                    Direction::Forward => self.twiddles[step.twiddle],
                    Direction::Inverse => self.twiddles[step.twiddle].conj(),
                };
                let upper = buf[step.upper];
                let lower = twiddle.mul(buf[step.lower]);
                buf[step.upper] = upper.add(lower);
                buf[step.lower] = upper.sub(lower);
            }
            span <<= 1;
        }
        if let Direction::Inverse = direction {
            for value in buf.iter_mut() {
                *value = value.scale(self.inv_n);
            }
        }
    }
}

fn root(k: usize, n: usize) -> Complex {
    let theta = -TWO_PI * (k as f64) / (n as f64);
    Complex::new(det_cos(theta), det_sin(theta))
}

struct RealFft {
    n: usize,
    half: ComplexFft,
    recombination: Vec<Complex>,
}

impl RealFft {
    fn new(n: usize) -> RealFft {
        assert!(
            n >= 2 && n.is_power_of_two(),
            "real FFT size must be a power of two of at least 2, got {n}"
        );
        RealFft {
            n,
            half: ComplexFft::new(n / 2),
            recombination: (0..=n / 2).map(|k| root(k, n)).collect(),
        }
    }

    fn forward(&self, input: &[f32], out: &mut Vec<Complex>) {
        assert_eq!(input.len(), self.n, "real FFT input must have length n");
        let m = self.n / 2;
        let mut packed: Vec<Complex> = input
            .chunks_exact(2)
            .map(|pair| Complex::new(pair[0] as f64, pair[1] as f64))
            .collect();
        self.half.run(&mut packed, Direction::Forward);

        out.clear();
        out.reserve(spectrum_len(self.n));
        for k in 0..=m {
            let z_k = packed[k % m];
            let z_mirror = packed[mirror_index(m, k)].conj();
            let even = z_k.add(z_mirror).scale(0.5);
            let diff = z_k.sub(z_mirror);
            let odd = Complex::new(0.5 * diff.im, -0.5 * diff.re);
            out.push(even.add(self.recombination[k].mul(odd)));
        }
    }

    fn inverse(&self, spectrum: &[Complex], out: &mut Vec<f32>) {
        assert_eq!(
            spectrum.len(),
            spectrum_len(self.n),
            "real FFT spectrum must have length n/2 + 1"
        );
        let m = self.n / 2;
        let mut packed = vec![Complex::ZERO; m];
        for (k, slot) in packed.iter_mut().enumerate() {
            let x_k = spectrum[k];
            let x_mirror = spectrum[m - k].conj();
            let even = x_k.add(x_mirror).scale(0.5);
            let diff = x_k.sub(x_mirror);
            let odd = self.recombination[k].conj().mul(diff).scale(0.5);
            *slot = Complex::new(even.re - odd.im, even.im + odd.re);
        }
        self.half.run(&mut packed, Direction::Inverse);

        out.clear();
        out.reserve(self.n);
        for value in &packed {
            out.push(value.re as f32);
            out.push(value.im as f32);
        }
    }
}

const PHAT_EPSILON: f64 = 1e-12;

fn block_levels(natives: &[Sample], block: usize) -> Vec<Sample> {
    natives
        .chunks_exact(block)
        .map(|natives| {
            let mut total = 0.0_f64;
            for &native in natives {
                total += (float(native) as f64).abs();
            }
            sample((total / block as f64) as f32)
        })
        .collect()
}

fn unscored(far_level: f64, near_energy: f64) -> CoarseScore {
    CoarseScore {
        far_level: measure(far_level),
        near_energy: measure(near_energy),
        corr: Vec::new(),
        corr_report: Vec::new(),
        folded: Vec::new(),
        average: Vec::new(),
        average_report: Vec::new(),
        raised: Vec::new(),
    }
}

fn score_coarse(scan: &CoarseScan) -> CoarseScore {
    let near = floats(&block_levels(&scan.near_block, scan.decimation));
    let window = match scan.window() {
        Some(window) => floats(&window),
        None => return unscored(0.0, 0.0),
    };
    let frame = near.len();

    let mut far_sum = 0.0_f64;
    for &value in &window {
        far_sum += value as f64;
    }
    let far_level = far_sum / window.len() as f64;

    let mut near_mean = 0.0_f64;
    for &value in &near {
        near_mean += value as f64;
    }
    near_mean /= frame as f64;
    let mut near_energy = 0.0_f64;
    for &value in &near {
        let centred = value as f64 - near_mean;
        near_energy += centred * centred;
    }
    if !scan.will_score(measure(far_level), measure(near_energy)) {
        return unscored(far_level, near_energy);
    }

    let mut prefix_sum = vec![0.0_f64; window.len() + 1];
    let mut prefix_sq = vec![0.0_f64; window.len() + 1];
    for (index, &value) in window.iter().enumerate() {
        let value = value as f64;
        prefix_sum[index + 1] = prefix_sum[index] + value;
        prefix_sq[index + 1] = prefix_sq[index] + value * value;
    }

    let floor = f64::from_bits(COARSE_VARIANCE_FLOOR_BITS);
    let ratio = f64::from_bits(COARSE_SIDELOBE_RATIO_BITS);
    let scale = 1.0 / (scan.accumulated + 1) as f64;
    let mut score = unscored(far_level, near_energy);
    for k in 0..=scan.span {
        let s1 = prefix_sum[k + frame] - prefix_sum[k];
        let s2 = prefix_sq[k + frame] - prefix_sq[k];
        let far_energy = s2 - s1 * s1 / frame as f64;
        let value = if far_energy <= floor {
            0.0
        } else {
            let mut num = 0.0_f64;
            for (offset, &near) in near.iter().enumerate() {
                num += (near as f64 - near_mean) * window[k + offset] as f64;
            }
            num / (near_energy * far_energy).sqrt()
        };
        let folded = double(scan.corr_avg[k]) + value;
        let average = folded * scale;
        score.corr.push(measure(value));
        score.corr_report.push(sample(value as f32));
        score.folded.push(measure(folded));
        score.average.push(measure(average));
        score.average_report.push(sample(average as f32));
        score.raised.push(measure(ratio * average));
    }
    score
}

fn frame_energy(samples: &[Sample]) -> Measure {
    measure(
        samples
            .iter()
            .map(|&s| float(s) as f64 * float(s) as f64)
            .sum::<f64>(),
    )
}

fn unscanned() -> FineScan {
    FineScan {
        correlation: Vec::new(),
        peak: measure(0.0),
        mean: measure(0.0),
        ratio: measure(0.0),
        gate: measure(0.0),
    }
}

struct FineCorrelator {
    fft: RealFft,
    max_delay: usize,
    accumulated: Vec<Complex>,
    cross: Vec<Complex>,
    input: Vec<f32>,
    near_spectrum: Vec<Complex>,
    far_spectrum: Vec<Complex>,
}

impl FineCorrelator {
    fn new(fine: &DelayEstimator) -> FineCorrelator {
        let bins = decibri_aec::fft::spectrum_len(fine.fft_len);
        FineCorrelator {
            fft: RealFft::new(fine.fft_len),
            max_delay: fine.max_delay(),
            accumulated: vec![Complex::ZERO; bins],
            cross: vec![Complex::ZERO; bins],
            input: vec![0.0; fine.fft_len],
            near_spectrum: Vec::new(),
            far_spectrum: Vec::new(),
        }
    }

    fn correlate(&mut self, near: &[Sample], far: &[Sample]) {
        self.load(near);
        self.fft.forward(&self.input, &mut self.near_spectrum);
        self.load(far);
        self.fft.forward(&self.input, &mut self.far_spectrum);
        for (bin, cross) in self.cross.iter_mut().enumerate() {
            let near = self.near_spectrum[bin];
            let far = self.far_spectrum[bin];
            let re = near.re * far.re + near.im * far.im;
            let im = near.re * far.im - near.im * far.re;
            let magnitude = (re * re + im * im).sqrt();
            let scale = 1.0 / (magnitude + PHAT_EPSILON);
            *cross = Complex::new(re * scale, im * scale);
        }
    }

    fn load(&mut self, samples: &[Sample]) {
        self.input.fill(0.0);
        for (slot, &value) in self.input.iter_mut().zip(samples) {
            *slot = float(value);
        }
    }

    fn fold(&mut self, near: &[Sample], far: &[Sample], first: bool) {
        self.correlate(near, far);
        if first {
            self.accumulated.fill(Complex::ZERO);
        }
        for (sum, cross) in self.accumulated.iter_mut().zip(&self.cross) {
            sum.re += cross.re;
            sum.im += cross.im;
        }
    }

    fn scan(&self) -> FineScan {
        self.scan_spectrum(&self.accumulated)
    }

    fn scan_alone(&mut self, near: &[Sample], far: &[Sample]) -> FineScan {
        self.correlate(near, far);
        self.scan_spectrum(&self.cross)
    }

    fn scan_spectrum(&self, spectrum: &[Complex]) -> FineScan {
        let mut correlation = Vec::new();
        self.fft.inverse(spectrum, &mut correlation);
        let mut peak = 0.0_f64;
        let mut total = 0.0_f64;
        for &value in &correlation[..=self.max_delay] {
            let value = (value as f64).abs();
            total += value;
            if value > peak {
                peak = value;
            }
        }
        let mean = total / ((self.max_delay + 1) as f64);
        let ratio = if mean > 0.0 { peak / mean } else { 0.0 };
        FineScan {
            correlation: correlation.iter().map(|&value| sample(value)).collect(),
            peak: measure(peak),
            mean: measure(mean),
            ratio: measure(ratio),
            gate: measure(f64::from_bits(CONFIDENCE_THRESHOLD_BITS) * mean),
        }
    }
}

const STEP_SIZE: f64 = 1.0;

const STEP_POWER_SMOOTHING: f64 = 0.98;

const DTD_MARGIN_DEVIATIONS: f64 = 3.0;

const DTD_DEVIATION_SMOOTHING: f64 = 0.95;

const DTD_DEVIATION_FLOOR: f64 = 0.01;

const COHERENCE_SMOOTHING: f64 = 0.8;

const FULL_SPEED_COHERENCE: f64 = 0.5;

const PATH_ERROR_SMOOTHING: f64 = 0.9;

const TRANSFER_FULL_ADVANTAGE: f64 = 0.5;

const TRANSFER_RATE_MAX: f64 = 0.75;

const RESCUE_RATIO: f64 = 4.0;

const DTD_BASELINE_ATTACK: f64 = 0.5;

const DTD_BASELINE_DECAY: f64 = 0.99;

const FAR_ACTIVITY_FRACTION: f64 = 1e-4;

const DIVERGENCE_SMOOTHING: f64 = 0.98;

const DIVERGENCE_RATIO: f64 = 1.05;

const REGULARIZATION: f64 = 1e-3;

const ERLE_SMOOTHING: f64 = 0.999;

const ERLE_POWER_FLOOR: f64 = 1e-10;

const SUPPRESSION_SMOOTHING: f64 = 0.7;

const RESIDUAL_ECHO_LEAK: f64 = 0.0003;

const GAIN_SMOOTHING: f64 = 0.5;

const GAIN_RELEASE_SMOOTHING: f64 = 0.2;

struct Tau {
    core: TauCanceller,
    fft: RealFft,
    shadow_weights: Vec<Complex>,
    output_weights: Vec<Complex>,
    far_spectra: Vec<Complex>,
    far_power_mean: Vec<f64>,
    echo_power: Vec<f64>,
    error_power: Vec<f64>,
    gain: Vec<f64>,
    smoothed_gain: Vec<f64>,
}

fn energy(values: &[f32]) -> f64 {
    let mut total = 0.0_f64;
    for &value in values {
        total += value as f64 * value as f64;
    }
    total
}

impl Tau {
    fn partitions(&self) -> usize {
        self.core.partitions()
    }

    fn transfers(&self) -> u64 {
        self.core.transfers()
    }

    fn new(sample_rate: u32, tail_ms: u16, suppression: Suppression) -> Tau {
        let core = TauCanceller::new(sample_rate, tail_ms, suppression);
        let coefficients = core.partitions() * BINS;
        Tau {
            core,
            fft: RealFft::new(FFT_LEN),
            shadow_weights: vec![Complex::ZERO; coefficients],
            output_weights: vec![Complex::ZERO; coefficients],
            far_spectra: vec![Complex::ZERO; coefficients],
            far_power_mean: vec![0.0; BINS],
            echo_power: vec![0.0; BINS],
            error_power: vec![0.0; BINS],
            gain: vec![1.0; BINS],
            smoothed_gain: vec![1.0; BINS],
        }
    }

    fn restart_suppressor(&mut self) {
        self.echo_power.fill(0.0);
        self.error_power.fill(0.0);
        self.gain.fill(1.0);
        self.smoothed_gain.fill(1.0);
    }

    fn estimate_spectrum(&self, weights: &[Complex]) -> Vec<Complex> {
        let mut spectrum = vec![Complex::ZERO; BINS];
        for partition in 0..self.core.partitions() {
            let spectra_base = self.core.slot(partition) * BINS;
            let weight_base = partition * BINS;
            for (bin, acc) in spectrum.iter_mut().enumerate() {
                let x = self.far_spectra[spectra_base + bin];
                let w = weights[weight_base + bin];
                acc.re += w.re * x.re - w.im * x.im;
                acc.im += w.re * x.im + w.im * x.re;
            }
        }
        spectrum
    }

    fn valid_half(&self, spectrum: &[Complex]) -> Vec<f32> {
        let mut time = Vec::new();
        self.fft.inverse(spectrum, &mut time);
        time.split_off(BLOCK)
    }

    fn run_block(&mut self, valid: usize, adapt: bool, out: &mut Vec<Sample>) {
        assert!(
            self.core.has_room_for_block(),
            "block counters exhausted"
        );
        let near = floats(&self.core.near_carry);
        let far = floats(&self.core.far_carry);
        self.core.open_block(valid, adapt);

        let mut spectrum = Vec::new();
        self.fft
            .forward(&floats(&self.core.far_window), &mut spectrum);
        let head_base = self.core.head * BINS;
        self.far_spectra[head_base..head_base + BINS].copy_from_slice(&spectrum);

        // The shadow filter's estimate feeds the detector and the adaptive
        // update; it never reaches the delivered output.
        let mut estimate = self.valid_half(&self.estimate_spectrum(&self.shadow_weights));
        let shadow_error: Vec<f32> = near.iter().zip(&estimate).map(|(n, e)| n - e).collect();
        if self.core.take_shadow_error(&samples(&shadow_error)) {
            self.shadow_weights.fill(Complex::ZERO);
            estimate.fill(0.0);
        }

        // The output filter's estimate is the one the listener's signal is
        // corrected by, and the one the suppressor sizes the leftover echo from.
        let estimate_spectrum = self.estimate_spectrum(&self.output_weights);
        let predicted = self.valid_half(&estimate_spectrum);
        let error: Vec<f32> = near.iter().zip(&predicted).map(|(n, e)| n - e).collect();
        if self.core.take_output_error(&samples(&error)) {
            self.shadow_weights.fill(Complex::ZERO);
            self.output_weights.fill(Complex::ZERO);
            self.restart_suppressor();
        }

        let block_energy = energy(&far);
        let peak = double(self.core.note_far_energy(measure(block_energy)));
        self.core
            .judge_far_activity(measure(block_energy), measure(FAR_ACTIVITY_FRACTION * peak));

        let near_energy = energy(&near[..valid]);
        let reading = self.coherence_reading(&near[..valid], near_energy, &estimate[..valid]);
        self.core.double_talk_block(reading);

        let reading = self.path_reading(valid);
        match self.core.compare_paths(reading) {
            PathMove::Stay => {}
            PathMove::Rescue => self.shadow_weights.copy_from_slice(&self.output_weights),
            PathMove::Transfer => {
                let share = double(reading.advantage) / TRANSFER_FULL_ADVANTAGE;
                let leak = TRANSFER_RATE_MAX * double(cap_share(measure(share)));
                for (w, s) in self.output_weights.iter_mut().zip(&self.shadow_weights) {
                    w.re += leak * (s.re - w.re);
                    w.im += leak * (s.im - w.im);
                }
            }
        }

        if self.core.awaits() == BlockStep::ShadowUpdate {
            let finite = self.adapt();
            self.core.note_shadow_update(finite);
            if !finite {
                self.shadow_weights.fill(Complex::ZERO);
            }
        }

        self.core.slide_error_window();
        let suppressed = if self.core.suppresses() {
            self.suppress(&estimate_spectrum)
        } else {
            floats(&self.core.error_block)
        };
        self.core.deliver(&samples(&suppressed));

        let out_energy = energy(&floats(&self.core.output_block[..valid]));
        let near_power = DIVERGENCE_SMOOTHING * double(self.core.divergence_near_power)
            + (1.0 - DIVERGENCE_SMOOTHING) * near_energy;
        let out_power = DIVERGENCE_SMOOTHING * double(self.core.divergence_out_power)
            + (1.0 - DIVERGENCE_SMOOTHING) * out_energy;
        let tripped = self.core.guard_output(GuardReading {
            near_power: measure(near_power),
            out_power: measure(out_power),
            limit: measure(DIVERGENCE_RATIO * near_power),
        });
        if tripped {
            for w in self.output_weights.iter_mut() {
                w.re *= 0.5;
                w.im *= 0.5;
            }
            self.restart_suppressor();
        }

        // Smoothed powers only; the decibel conversion happens in `metrics` on
        // read, keeping the streaming state transcendental-free.
        let mut near_power = double(self.core.near_power);
        let mut residual_power = double(self.core.residual_power);
        for (&near, &out) in near[..valid].iter().zip(&self.core.output_block[..valid]) {
            let near = near as f64;
            let out = float(out) as f64;
            near_power = ERLE_SMOOTHING * near_power + (1.0 - ERLE_SMOOTHING) * (near * near);
            residual_power = ERLE_SMOOTHING * residual_power + (1.0 - ERLE_SMOOTHING) * (out * out);
        }
        self.core
            .close_block(measure(near_power), measure(residual_power), out);
    }

    fn coherence_reading(
        &self,
        near: &[f32],
        near_energy: f64,
        estimate: &[f32],
    ) -> CoherenceReading {
        let estimate_energy = energy(estimate);
        let mut dot = 0.0_f64;
        for (&n, &e) in near.iter().zip(estimate) {
            dot += n as f64 * e as f64;
        }
        let coherence = if dot > 0.0 {
            (dot * dot) / (near_energy * estimate_energy)
        } else {
            0.0
        };
        let baseline = double(self.core.detector.baseline);
        let deviation = double(self.core.detector.deviation);
        let smooth = double(self.core.detector.smooth);
        let moved = COHERENCE_SMOOTHING * smooth + (1.0 - COHERENCE_SMOOTHING) * coherence;
        let outlook = |baseline: f64| {
            let shortfall = (coherence - baseline).abs();
            Outlook {
                baseline: measure(baseline),
                deviation: measure(
                    DTD_DEVIATION_SMOOTHING * deviation
                        + (1.0 - DTD_DEVIATION_SMOOTHING) * shortfall,
                ),
                depth: measure((baseline - coherence) / deviation.max(DTD_DEVIATION_FLOOR)),
            }
        };
        CoherenceReading {
            near_energy: measure(near_energy),
            estimate_energy: measure(estimate_energy),
            coherence: measure(coherence),
            entry_level: measure(
                baseline - DTD_MARGIN_DEVIATIONS * deviation.max(DTD_DEVIATION_FLOOR),
            ),
            held: outlook(baseline),
            seeded: outlook(coherence),
            raised: outlook(
                DTD_BASELINE_ATTACK * baseline + (1.0 - DTD_BASELINE_ATTACK) * coherence,
            ),
            decayed: outlook(
                DTD_BASELINE_DECAY * baseline + (1.0 - DTD_BASELINE_DECAY) * coherence,
            ),
            smooth: measure(moved),
            scale_held: measure(smooth / FULL_SPEED_COHERENCE),
            scale_moved: measure(moved / FULL_SPEED_COHERENCE),
        }
    }

    fn path_reading(&self, valid: usize) -> PathReading {
        let shadow_energy = energy(&floats(&self.core.shadow_error_block[..valid]));
        let output_energy = energy(&floats(&self.core.error_block[..valid]));
        let shadow_power = PATH_ERROR_SMOOTHING * double(self.core.shadow_error_power)
            + (1.0 - PATH_ERROR_SMOOTHING) * shadow_energy;
        let output_power = PATH_ERROR_SMOOTHING * double(self.core.output_error_power)
            + (1.0 - PATH_ERROR_SMOOTHING) * output_energy;
        PathReading {
            shadow_power: measure(shadow_power),
            output_power: measure(output_power),
            rescue_level: measure(RESCUE_RATIO * output_power),
            advantage: measure(1.0 - shadow_power / output_power),
        }
    }

    fn adapt(&mut self) -> bool {
        // The zero-prefixed spectrum of the shadow filter's own error.
        let mut window = vec![0.0_f32; FFT_LEN];
        window[BLOCK..].copy_from_slice(&floats(&self.core.shadow_error_block));
        let mut error_spectrum = Vec::new();
        self.fft.forward(&window, &mut error_spectrum);

        let partitions = self.core.partitions();
        let mut far_power = vec![0.0_f64; BINS];
        for partition in 0..partitions {
            let base = partition * BINS;
            for (bin, power) in far_power.iter_mut().enumerate() {
                let x = self.far_spectra[base + bin];
                *power += x.re * x.re + x.im * x.im;
            }
        }

        // A bin carrying its usual power adapts at the full step; one that has
        // fallen below its own recent average is stepped down in proportion.
        let scale = double(self.core.detector.step_scale);
        let mut step = vec![0.0_f64; BINS];
        for bin in 0..BINS {
            let mean = self.far_power_mean[bin];
            let share = double(cap_share(measure(far_power[bin] / mean)));
            let factor = double(bin_step(measure(mean), measure(share * share)));
            step[bin] = STEP_SIZE * factor * scale;
            self.far_power_mean[bin] =
                STEP_POWER_SMOOTHING * mean + (1.0 - STEP_POWER_SMOOTHING) * far_power[bin];
        }

        let mut all_finite = true;
        let mut gradient = vec![Complex::ZERO; BINS];
        let mut time = Vec::new();
        for partition in 0..partitions {
            let spectra_base = self.core.slot(partition) * BINS;
            for bin in 0..BINS {
                let x = self.far_spectra[spectra_base + bin];
                let e = error_spectrum[bin];
                let factor = step[bin] / (far_power[bin] + REGULARIZATION);
                let re = x.re * e.re + x.im * e.im;
                let im = x.re * e.im - x.im * e.re;
                gradient[bin] = Complex::new(re * factor, im * factor);
            }
            // The lags beyond one block are the circular wrap-around, not real
            // filter taps.
            self.fft.inverse(&gradient, &mut time);
            time[BLOCK..].fill(0.0);
            self.fft.forward(&time, &mut gradient);

            let weight_base = partition * BINS;
            for bin in 0..BINS {
                let w = &mut self.shadow_weights[weight_base + bin];
                w.re += gradient[bin].re;
                w.im += gradient[bin].im;
                all_finite &= w.re.is_finite() && w.im.is_finite();
            }
        }
        all_finite
    }

    fn suppress(&mut self, estimate_spectrum: &[Complex]) -> Vec<f32> {
        let mut spectrum = Vec::new();
        self.fft
            .forward(&floats(&self.core.error_window), &mut spectrum);
        for bin in 0..BINS {
            let estimate = estimate_spectrum[bin];
            let error = spectrum[bin];
            let estimate_power = estimate.re * estimate.re + estimate.im * estimate.im;
            let error_power = error.re * error.re + error.im * error.im;
            self.echo_power[bin] = SUPPRESSION_SMOOTHING * self.echo_power[bin]
                + (1.0 - SUPPRESSION_SMOOTHING) * estimate_power;
            self.error_power[bin] = SUPPRESSION_SMOOTHING * self.error_power[bin]
                + (1.0 - SUPPRESSION_SMOOTHING) * error_power;

            let residual = RESIDUAL_ECHO_LEAK * self.echo_power[bin];
            let denominator = self.error_power[bin] + residual;
            let share = self.error_power[bin] / denominator;
            let target = double(self.core.gain_target(measure(denominator), measure(share)));
            let smoothing = if releases(measure(self.gain[bin]), measure(target)) {
                GAIN_RELEASE_SMOOTHING
            } else {
                GAIN_SMOOTHING
            };
            self.gain[bin] = smoothing * self.gain[bin] + (1.0 - smoothing) * target;
        }

        // The across-bin moving average, over a window clamped to the spectrum's
        // ends.
        for bin in 0..BINS {
            let (lo, hi) = gain_window(bin);
            let mut total = 0.0_f64;
            for neighbour in lo..=hi {
                total += self.gain[neighbour];
            }
            self.smoothed_gain[bin] = total / ((hi - lo + 1) as f64);
        }
        for (error, &gain) in spectrum.iter_mut().zip(&self.smoothed_gain) {
            *error = Complex::new(error.re * gain, error.im * gain);
        }
        self.valid_half(&spectrum)
    }
}

impl EchoCanceller for Tau {
    fn process(&mut self, near: &[f32], far: &[f32], out: &mut Vec<f32>) -> Result<(), AecError> {
        assert_eq!(
            near.len(),
            far.len(),
            "process requires equal-length aligned near and far blocks"
        );
        let near = samples(near);
        let far = samples(far);
        let mut delivered = Vec::new();
        let mut taken = 0;
        while taken < near.len() {
            taken += self.core.accept(&near[taken..], &far[taken..]);
            if self.core.block_ready() {
                self.run_block(BLOCK, true, &mut delivered);
            }
        }
        out.extend(floats(&delivered));
        Ok(())
    }

    fn flush(&mut self, out: &mut Vec<f32>) -> Result<(), AecError> {
        let remainder = self.core.pad();
        if remainder > 0 {
            let mut delivered = Vec::new();
            self.run_block(remainder, false, &mut delivered);
            out.extend(floats(&delivered));
        }
        Ok(())
    }

    fn latency_samples(&self) -> usize {
        self.core.latency_samples()
    }

    fn reset(&mut self) {
        self.core.reset();
        self.shadow_weights.fill(Complex::ZERO);
        self.output_weights.fill(Complex::ZERO);
        self.far_spectra.fill(Complex::ZERO);
        self.far_power_mean.fill(0.0);
        self.restart_suppressor();
    }

    fn metrics(&self) -> CancellerMetrics {
        let near_power = double(self.core.near_power);
        let residual_power = double(self.core.residual_power);
        let ratio = near_power / residual_power.max(ERLE_POWER_FLOOR);
        let erle_db = (10.0 * ratio.log10()) as f32;
        self.core.metrics(sample(erle_db))
    }
}

const RHO_STEP_SIZE: f64 = 0.5;
const RHO_REGULARIZATION: f64 = 1e-3;
const GEIGEL_THRESHOLD: f32 = 0.5;
const DTD_HANGOVER_MS: u32 = 15;

/// A time-domain normalized least-mean-squares canceller under a Geigel
/// detector: the simple reference the shipped filter is measured against.
struct RhoCanceller {
    weights: Vec<f32>,
    history: Vec<f32>,
    pos: usize,
    hangover_remaining: u32,
    hangover_samples: u32,
    near_power: f64,
    residual_power: f64,
    divergence_resets: u64,
}

impl RhoCanceller {
    fn new(sample_rate: u32, tail_ms: u16) -> RhoCanceller {
        let taps = ((tail_ms as u64 * sample_rate as u64) / 1000).max(1) as usize;
        let hangover_samples = ((DTD_HANGOVER_MS as u64 * sample_rate as u64) / 1000) as u32;
        RhoCanceller {
            weights: vec![0.0; taps],
            history: vec![0.0; taps],
            pos: taps - 1,
            hangover_remaining: 0,
            hangover_samples,
            near_power: 0.0,
            residual_power: 0.0,
            divergence_resets: 0,
        }
    }

    fn step(&mut self, near: f32, far: f32) -> f32 {
        let taps = self.history.len();
        self.pos = if self.pos + 1 == taps {
            0
        } else {
            self.pos + 1
        };
        self.history[self.pos] = far;

        let (head, tail) = self.history.split_at(self.pos + 1);
        let mut estimate = 0.0_f64;
        let mut energy = 0.0_f64;
        let mut peak = 0.0_f32;
        for (&weight, &x) in self
            .weights
            .iter()
            .zip(head.iter().rev().chain(tail.iter().rev()))
        {
            estimate += weight as f64 * x as f64;
            energy += x as f64 * x as f64;
            peak = peak.max(x.abs());
        }

        let error = near as f64 - estimate;
        let output = error as f32;
        let diverged = !output.is_finite();
        let output = if diverged {
            self.weights.fill(0.0);
            self.divergence_resets += 1;
            0.0
        } else {
            output
        };

        if near.abs() > GEIGEL_THRESHOLD * peak {
            self.hangover_remaining = self.hangover_samples;
        } else if self.hangover_remaining > 0 {
            self.hangover_remaining -= 1;
        }

        if self.hangover_remaining == 0 && !diverged {
            let scale = RHO_STEP_SIZE * error / (RHO_REGULARIZATION + energy);
            let (head, tail) = self.history.split_at(self.pos + 1);
            let mut all_finite = true;
            for (weight, &x) in self
                .weights
                .iter_mut()
                .zip(head.iter().rev().chain(tail.iter().rev()))
            {
                let updated = *weight + (scale * x as f64) as f32;
                *weight = updated;
                all_finite &= updated.is_finite();
            }
            if !all_finite {
                self.weights.fill(0.0);
                self.divergence_resets += 1;
            }
        }

        self.near_power =
            ERLE_SMOOTHING * self.near_power + (1.0 - ERLE_SMOOTHING) * (near as f64 * near as f64);
        self.residual_power = ERLE_SMOOTHING * self.residual_power
            + (1.0 - ERLE_SMOOTHING) * (output as f64 * output as f64);

        output
    }
}

impl EchoCanceller for RhoCanceller {
    fn process(&mut self, near: &[f32], far: &[f32], out: &mut Vec<f32>) -> Result<(), AecError> {
        assert_eq!(
            near.len(),
            far.len(),
            "process requires equal-length aligned near and far blocks"
        );
        out.reserve(near.len());
        for (&near_raw, &far_raw) in near.iter().zip(far) {
            let near_sample = if near_raw.is_finite() { near_raw } else { 0.0 };
            let far_sample = if far_raw.is_finite() { far_raw } else { 0.0 };
            out.push(self.step(near_sample, far_sample));
        }
        Ok(())
    }

    fn flush(&mut self, _out: &mut Vec<f32>) -> Result<(), AecError> {
        Ok(())
    }

    fn latency_samples(&self) -> usize {
        0
    }

    fn reset(&mut self) {
        self.weights.fill(0.0);
        self.history.fill(0.0);
        self.pos = self.history.len() - 1;
        self.hangover_remaining = 0;
        self.near_power = 0.0;
        self.residual_power = 0.0;
    }

    fn metrics(&self) -> CancellerMetrics {
        let erle_db = if self.near_power > ERLE_POWER_FLOOR {
            let ratio = self.near_power / self.residual_power.max(ERLE_POWER_FLOOR);
            (10.0 * ratio.log10()) as f32
        } else {
            0.0
        };
        let mut metrics = CancellerMetrics::default();
        metrics.erle_db = sample(erle_db);
        metrics.double_talk = self.hangover_remaining > 0;
        metrics.divergence_resets = self.divergence_resets;
        metrics
    }
}

struct Aec {
    core: decibri_aec::Aec,
    canceller: Box<dyn EchoCanceller>,
    correlator: Option<FineCorrelator>,
}

impl Aec {
    fn new(config: AecConfig) -> Result<Aec, AecError> {
        let core = decibri_aec::Aec::new(config)?;
        let canceller: Box<dyn EchoCanceller> = match config.model {
            AecModel::Tau => Box::new(Tau::new(
                config.sample_rate,
                config.tail_ms,
                config.suppression,
            )),
            _ => unreachable!("every publicly selectable model is compiled in"),
        };
        let correlator = core
            .acquirer
            .as_ref()
            .map(|acquirer| FineCorrelator::new(&acquirer.fine));
        Ok(Aec {
            core,
            canceller,
            correlator,
        })
    }

    fn with_internal_reference(config: AecConfig) -> Result<Aec, AecError> {
        let mut aec = Aec::new(config)?;
        aec.canceller = Box::new(RhoCanceller::new(config.sample_rate, config.tail_ms));
        Ok(aec)
    }

    fn feed_reference(&mut self, reference: &[f32]) {
        assert!(
            self.core.has_room_to_feed(reference.len()),
            "reference index exhausted"
        );
        let natives = self.core.feed_reference(&samples(reference));
        if let Some(acquirer) = &self.core.acquirer {
            let levels = block_levels(&natives, acquirer.coarse.bin_samples());
            self.core.bank_reference_levels(&levels);
        }
    }

    fn acquirer_mut(&mut self) -> Option<&mut DelayAcquirer> {
        self.core.acquirer.as_mut()
    }

    fn declare_capture_continuity(&mut self, continuity: CaptureContinuity) {
        self.core.declare_capture_continuity(continuity);
    }

    fn process(&mut self, near: &[f32], out: &mut Vec<f32>) -> Result<(), AecError> {
        assert!(
            self.core.has_room_for(near.len()),
            "sample counters exhausted"
        );
        self.core.open_block(&samples(near));
        loop {
            let action = match self.core.step() {
                AecEvent::Advanced => continue,
                AecEvent::Aligned => break,
                AecEvent::CoarseFrame => {
                    self.answer_coarse();
                    continue;
                }
                AecEvent::FineFrame => self.answer_fine(),
                AecEvent::Rescan => self.answer_rescan(),
            };
            if action == CancellerAction::Reset {
                // The samples the canceller still carries were captured before
                // the alignment changed: they are delivered, not discarded.
                let mut carried = Vec::new();
                self.canceller.flush(&mut carried)?;
                self.release(&carried, out);
                self.canceller.reset();
            }
        }
        self.core.align_block();
        self.fade();

        let near = floats(&self.core.near_scratch);
        let far = floats(&self.core.far_scratch);
        let mut emitted = Vec::new();
        let result = self.canceller.process(&near, &far, &mut emitted);
        self.release(&emitted, out);
        result
    }

    fn answer_coarse(&mut self) {
        let score = match &self.core.acquirer {
            Some(acquirer) => score_coarse(&acquirer.coarse),
            None => return,
        };
        self.core.answer_coarse(score);
    }

    fn answer_fine(&mut self) -> CancellerAction {
        let (Some(acquirer), Some(correlator)) = (&self.core.acquirer, &mut self.correlator) else {
            return CancellerAction::Keep;
        };
        let fine = &acquirer.fine;
        assert!(fine.has_room_for_frame(), "frame counters exhausted");
        let near_energy = frame_energy(&fine.near_frame);
        let far_energy = frame_energy(&self.core.estimator_scratch);
        let mut scan = unscanned();
        let frame_use = self.core.fine_frame_use(near_energy, far_energy);
        if frame_use != FrameUse::Refused {
            let first = fine.frames() == 0;
            correlator.fold(&fine.near_frame, &self.core.estimator_scratch, first);
            if frame_use == FrameUse::Scanned {
                scan = correlator.scan();
            }
        }
        self.core.answer_fine(near_energy, far_energy, &scan)
    }

    fn answer_rescan(&mut self) -> CancellerAction {
        let (Some(acquirer), Some(correlator)) = (&self.core.acquirer, &mut self.correlator) else {
            return CancellerAction::Keep;
        };
        let fine = &acquirer.fine;
        assert!(fine.has_room_for_frame(), "frame counters exhausted");
        let near_energy = frame_energy(&fine.retained_near);
        let far_energy = frame_energy(&self.core.estimator_scratch);
        let mut scan = unscanned();
        if self.core.will_rescan(near_energy, far_energy) {
            scan = correlator.scan_alone(&fine.retained_near, &self.core.estimator_scratch);
        }
        self.core.answer_rescan(near_energy, far_energy, &scan)
    }

    fn fade(&mut self) {
        let (down, up) = match &self.core.output_blend {
            OutputBlend::Graded(gate) => (
                1.0 / gate.fade_out_samples as f32,
                1.0 / gate.fade_in_samples as f32,
            ),
            OutputBlend::Preserve => return,
        };
        while let Some(ramp) = self.core.ramp() {
            let gain = float(ramp.gain);
            let moved = if ramp.reacquiring {
                gain - down
            } else {
                gain + up
            };
            self.core.fade_next(sample(moved));
        }
    }

    fn release(&mut self, emitted: &[f32], out: &mut Vec<f32>) {
        let blended: Vec<f32> = match &self.core.output_blend {
            OutputBlend::Graded(gate) => emitted
                .iter()
                .enumerate()
                .map(|(i, &value)| {
                    match (gate.pending_near.get(i), gate.pending_gain.get(i)) {
                        (Some(&near), Some(&gain)) => {
                            let gain = float(gain);
                            gain * value + (1.0 - gain) * float(near)
                        }
                        _ => value,
                    }
                })
                .collect(),
            OutputBlend::Preserve => emitted.to_vec(),
        };
        let mut delivered = Vec::new();
        self.core
            .release(&samples(emitted), &samples(&blended), &mut delivered);
        out.extend(floats(&delivered));
    }

    fn flush(&mut self, out: &mut Vec<f32>) -> Result<(), AecError> {
        let mut emitted = Vec::new();
        let result = self.canceller.flush(&mut emitted);
        self.release(&emitted, out);
        result
    }

    fn latency_samples(&self) -> usize {
        self.canceller.latency_samples()
    }

    fn reset(&mut self) {
        self.core.reset();
        self.canceller.reset();
    }

    fn metrics(&self) -> AecMetrics {
        self.core.metrics(self.canceller.metrics())
    }
}

/// The graded gate with the increments the host computes for it.
struct Gate {
    gate: GradedGate,
    down_step: f32,
    up_step: f32,
}

impl Gate {
    fn new(fade_out_samples: u64, fade_in_samples: u64) -> Gate {
        let gate = GradedGate::new(fade_out_samples, fade_in_samples);
        let down_step = 1.0 / gate.fade_out_samples as f32;
        let up_step = 1.0 / gate.fade_in_samples as f32;
        Gate {
            gate,
            down_step,
            up_step,
        }
    }

    fn gain(&self) -> f32 {
        float(self.gate.gain)
    }

    fn step(&mut self, reacquiring: bool) -> f32 {
        let moved = if reacquiring {
            self.gain() - self.down_step
        } else {
            self.gain() + self.up_step
        };
        float(self.gate.step(reacquiring, sample(moved)))
    }
}

// ---- Shared fixtures ---------------------------------------------------------

/// The defaults, with the fields a test cares about changed.
fn configured(edit: impl Fn(&mut AecConfig)) -> AecConfig {
    let mut config = AecConfig::default();
    edit(&mut config);
    config
}

/// A deterministic linear congruential generator: integer state mapped to `f32`,
/// so every fixture is bit-identical everywhere.
struct Lcg(u64);

impl Lcg {
    fn new(seed: u64) -> Lcg {
        Lcg(seed)
    }

    /// The next pseudo-random sample in `[-1.0, 1.0)`.
    fn next_f32(&mut self) -> f32 {
        self.0 = self
            .0
            .wrapping_mul(6_364_136_223_846_793_005)
            .wrapping_add(1_442_695_040_888_963_407);
        let bits = (self.0 >> 40) as u32;
        (bits as f32 / (1u32 << 23) as f32) - 1.0
    }

    fn next_unit(&mut self) -> f32 {
        (self.next_f32() + 1.0) * 0.5
    }
}

/// Sample rate for every fixture.
const RATE: u32 = 16_000;

/// One near-end block, the cadence of the fixtures.
const TURN: usize = 256;

// ---- The engine --------------------------------------------------------------

/// Matched turns enough to establish the lead baseline with room to spare.
const BASELINE_TURNS: usize = LEAD_BASELINE_BLOCKS as usize + 8;

/// A block far larger than the cadence.
const OVERSIZED: usize = 8192;

/// A turn that does not divide the canceller's block.
const RAGGED_TURN: usize = 200;

/// A reference chunk whose frontier coincides with a near-block boundary only
/// every 1280 samples.
const FAR_CHUNK: usize = 160;

/// A hinted engine at the lowest rate the configuration allows, so the
/// derived ring is small enough to overflow inside a test.
fn small_ring_config(hint_ms: u16) -> AecConfig {
    configured(|config| {
        config.sample_rate = 8000;
        config.delay_hint_ms = Some(hint_ms);
    })
}

/// One matched turn at the 256-sample cadence the continuity cases use.
/// The standing lead is exactly zero from the second turn onward, because
/// the anchor was taken at the frontier and both counters advance together.
fn matched_turns(aec: &mut Aec, turns: usize, out: &mut Vec<f32>) {
    for _ in 0..turns {
        aec.feed_reference(&[0.25; 256]);
        aec.process(&[0.1; 256], out).unwrap();
    }
}

/// A far-end single-talk pair whose echo path begins exactly `bulk` samples
/// after the far-end sample that caused it: broadband noise under a
/// syllabic envelope, which is enough structure for the acquisition to
/// promote a lock, owned here so this test needs no fixture and no data.
fn clean_delayed_pair(len: usize, bulk: usize) -> (Vec<f32>, Vec<f32>) {
    let mut carrier = Lcg(0x1234_5678);
    let mut shape = Lcg(0x00C0_FFEE);

    let mut far = Vec::with_capacity(len);
    let mut level = 0.0_f32;
    let mut remaining = 0_usize;
    while far.len() < len {
        if remaining == 0 {
            remaining = 400 + (shape.next_unit() * 2400.0) as usize;
            level = if shape.next_unit() < 0.28 {
                0.0
            } else {
                0.15 + 0.85 * shape.next_unit()
            };
        }
        far.push(level * carrier.next_f32());
        remaining -= 1;
    }

    let taps = [(0_usize, 0.5_f32), (80, -0.25), (240, 0.12), (410, -0.06)];
    let mic = (0..len)
        .map(|i| {
            let mut echo = 0.0_f32;
            for &(tap, coeff) in &taps {
                let lag = bulk + tap;
                if i >= lag {
                    echo += coeff * far[i - lag];
                }
            }
            0.5 * echo
        })
        .collect();
    (far, mic)
}

/// Drives one matched turn: feed a block, process a block. The standing
/// frontier lag stays exactly zero this way, which is what makes the
/// declared-discontinuity cases below test the declaration and not a lag
/// the automatic rule would have caught on its own.
fn matched_turn(aec: &mut Aec, far: &[f32], mic: &[f32], out: &mut Vec<f32>) {
    aec.feed_reference(far);
    aec.process(mic, out).expect("process succeeds");
}

/// The default engine config, but preserving the correction throughout, used as
/// the byte-identity reference.
fn preserve_config() -> AecConfig {
    configured(|config| {
        config.output_transition = OutputTransitionPolicy::PreserveCorrection;
    })
}

fn assert_bits_identical(got: &[f32], expected: &[f32]) {
    assert_eq!(got.len(), expected.len(), "output lengths differ");
    for (i, (g, e)) in got.iter().zip(expected).enumerate() {
        assert_eq!(g.to_bits(), e.to_bits(), "sample {i} differs: {g} vs {e}");
    }
}

/// What the driver does to the stream once a lock stands.
#[derive(Clone, Copy)]
enum Seam {
    /// Nothing: converge and keep streaming.
    Nothing,
    /// Force a spurious reacquisition at the given absolute turn index,
    /// emulating a trigger on a static delay.
    ForceReacquire { turn: usize },
    /// Lose `lag` near samples the far stream did not, and declare it.
    DeclaredLoss { lag: usize },
    /// Lose `lag` near samples the far stream did not and say nothing, so
    /// the engine infers the seam from the frontier lead.
    InferredLoss { lag: usize },
}

/// One engine run over a far/near pair at matched 256-sample turns.
struct PolicyRun {
    out: Vec<f32>,
    /// Whether each processed turn published `Reacquiring`.
    reacquiring_per_turn: Vec<bool>,
    /// The delay status just before the seam was applied.
    status_before_seam: DelayStatus,
    /// Whether the run re-anchored (declared or inferred).
    reanchored: bool,
}

/// Drives `far`/`near` through a fresh engine at matched 256-sample turns,
/// applying `seam` once after an eight-second convergence window. Feed and
/// process are equal-sized, so the standing frontier lag is exactly zero and
/// a declared or inferred loss is exactly the capture loss and nothing else.
fn drive_policy(config: AecConfig, far: &[f32], near: &[f32], seam: Seam) -> PolicyRun {
    let rate = config.sample_rate as usize;
    let mut aec = Aec::new(config).expect("configuration is valid");
    let mut out = Vec::new();
    let mut reacq = Vec::new();
    let total = far.len().min(near.len());
    let converge = (rate * 8).min(total.saturating_sub(TURN));
    let mut cursor = 0usize;
    let mut turn = 0usize;

    let force_turn = if let Seam::ForceReacquire { turn } = seam {
        Some(turn)
    } else {
        None
    };

    while cursor + TURN <= converge {
        aec.feed_reference(&far[cursor..cursor + TURN]);
        if force_turn == Some(turn) {
            aec.acquirer_mut()
                .expect("no hint, so an estimator runs")
                .enter_reacquire(ReacquireTrigger::ConfidenceLost);
        }
        aec.process(&near[cursor..cursor + TURN], &mut out)
            .expect("process succeeds");
        reacq.push(matches!(
            aec.metrics().delay.status,
            DelayStatus::Reacquiring
        ));
        cursor += TURN;
        turn += 1;
    }

    let status_before_seam = aec.metrics().delay.status;

    if let Seam::DeclaredLoss { lag } | Seam::InferredLoss { lag } = seam {
        let lag = lag.min(total - cursor);
        aec.feed_reference(&far[cursor..cursor + lag]);
        cursor += lag;
        if let Seam::DeclaredLoss { .. } = seam {
            aec.declare_capture_continuity(CaptureContinuity::Discontinuity {
                lost_samples: Some(lag as u64),
            });
        }
    }

    while cursor + TURN <= total {
        aec.feed_reference(&far[cursor..cursor + TURN]);
        if force_turn == Some(turn) {
            aec.acquirer_mut()
                .expect("no hint, so an estimator runs")
                .enter_reacquire(ReacquireTrigger::ConfidenceLost);
        }
        aec.process(&near[cursor..cursor + TURN], &mut out)
            .expect("process succeeds");
        reacq.push(matches!(
            aec.metrics().delay.status,
            DelayStatus::Reacquiring
        ));
        cursor += TURN;
        turn += 1;
    }
    aec.flush(&mut out).expect("flush succeeds");

    let m = aec.metrics();
    PolicyRun {
        out,
        reacquiring_per_turn: reacq,
        status_before_seam,
        reanchored: m.reference_reanchors + m.capture_discontinuities > 0,
    }
}

#[test]
fn sanitize_replaces_non_finite_and_passes_finite_through() {
    let mut dst = Vec::new();
    decibri_aec::sample::sanitize_into(
        &samples(&[1.0, f32::NAN, f32::INFINITY, f32::NEG_INFINITY, -2.0, 0.0]),
        &mut dst,
    );
    assert_eq!(floats(&dst), vec![1.0, 0.0, 0.0, 0.0, -2.0, 0.0]);
}

#[test]
fn ms_to_samples_truncates_toward_zero() {
    assert_eq!(ms_to_samples(200, 16000), 3200);
    assert_eq!(ms_to_samples(16, 16000), 256);
    assert_eq!(ms_to_samples(1, 16000), 16);
}

#[test]
fn ring_capacity_covers_delay_tail_and_slack() {
    let capacity = derive_ring_capacity(&AecConfig::default());
    // (250 + 200) ms + 4 s at 16 kHz = 7200 + 64000.
    assert_eq!(capacity, 71200);
}

#[test]
fn construction_accepts_defaults() {
    let aec = Aec::new(AecConfig::default()).expect("default config is valid");
    // The default model is the framed frequency-domain canceller, whose
    // framing latency is one block.
    assert_eq!(aec.latency_samples(), BLOCK);
    let metrics = aec.metrics();
    assert_eq!(metrics.delay_samples, None);
    assert_eq!(metrics.reference_starved, 0);
    assert_eq!(metrics.reference_dropped, 0);
    assert_eq!(metrics.canceller, CancellerMetrics::default());
}

#[test]
fn construction_rejects_out_of_range_sample_rate() {
    let config = configured(|config| {
        config.sample_rate = 4000;
    });
    assert!(matches!(
        Aec::new(config),
        Err(AecError::SampleRateOutOfRange { requested: 4000 })
    ));
}

#[test]
fn construction_rejects_out_of_range_tail() {
    let config = configured(|config| {
        config.tail_ms = 8;
    });
    assert!(matches!(
        Aec::new(config),
        Err(AecError::TailOutOfRange { requested_ms: 8 })
    ));
}

#[test]
fn construction_rejects_out_of_range_echo_delay() {
    let config = configured(|config| {
        config.max_echo_delay_ms = 5;
    });
    assert!(matches!(
        Aec::new(config),
        Err(AecError::EchoDelayOutOfRange { requested_ms: 5 })
    ));
}

/// Selecting the public model now yields a working canceller: a full block
/// in produces a full block out, with no error path left for a validly
/// named model.
#[test]
fn process_with_the_public_model_produces_output() {
    let config = configured(|config| {
        config.delay_hint_ms = Some(16);
    });
    assert_eq!(config.model, AecModel::Tau);
    let mut aec = Aec::new(config).unwrap();
    aec.feed_reference(&[0.1; 256]);
    let mut out = Vec::new();
    aec.process(&[0.2; 256], &mut out)
        .expect("the public model resolves to a working canceller");
    assert_eq!(out.len(), 256);
    assert!(out.iter().all(|s| s.is_finite()));
}

#[test]
fn unaligned_processing_parks_rather_than_starves() {
    // With no hint and no lock there is no alignment yet: the whole block
    // is a search state, counted as parked, and starvation stays a pure
    // transport report.
    let mut aec = Aec::new(AecConfig::default()).unwrap();
    let mut out = Vec::new();
    let _ = aec.process(&[0.0; 128], &mut out);
    let metrics = aec.metrics();
    assert_eq!(metrics.acquisition_parked, 128);
    assert_eq!(metrics.reference_starved, 0);
}

#[test]
fn default_offset_parks_at_the_frontier() {
    // With no delay hint the offset is zero and the near-end reads would
    // sit at the reference frontier; the engine parks them instead.
    let mut aec = Aec::new(AecConfig::default()).unwrap();
    aec.feed_reference(&[0.5; 256]);
    let mut out = Vec::new();
    let _ = aec.process(&[0.5; 256], &mut out);
    let metrics = aec.metrics();
    assert_eq!(metrics.acquisition_parked, 256);
    assert_eq!(metrics.reference_starved, 0);
}

#[test]
fn a_hinted_engine_counts_starvation_not_parking() {
    // A hint is an active alignment from the first sample, so unavailable
    // reference is genuine starvation and nothing is parked.
    let config = configured(|config| {
        config.delay_hint_ms = Some(100);
    });
    let mut aec = Aec::new(config).unwrap();
    let mut out = Vec::new();
    let _ = aec.process(&[0.5; 256], &mut out);
    let metrics = aec.metrics();
    assert_eq!(metrics.acquisition_parked, 0);
    assert_eq!(metrics.reference_starved, 256);
}

#[test]
fn delay_hint_shifts_reads_into_the_retained_window() {
    // A 16 ms hint at 16 kHz is a 256-sample offset, exactly the frontier
    // anchor, so the near-end reads land on the fed reference and none starve.
    let config = configured(|config| {
        config.delay_hint_ms = Some(16);
    });
    let mut aec = Aec::new(config).unwrap();
    aec.feed_reference(&[0.5; 256]);
    let mut out = Vec::new();
    let _ = aec.process(&[0.5; 256], &mut out);
    assert_eq!(aec.metrics().reference_starved, 0);
}

#[test]
fn reference_overflow_counts_drops_without_disturbing_the_alignment() {
    // Overwriting the oldest sample is what a full ring does on every push.
    // A consumer that keeps up is not affected by it, however long the
    // stream runs, so the anchor it was given must survive the whole of it.
    let config = small_ring_config(100);
    let capacity = derive_ring_capacity(&config);
    let mut aec = Aec::new(config).unwrap();
    let mut out = Vec::new();

    aec.feed_reference(&[0.25; 256]);
    aec.process(&[0.1; 256], &mut out).unwrap();
    let anchored = aec.core.anchor;
    assert!(anchored.is_some(), "the first process anchors the stream");

    // Twice the ring's whole depth, in matched turns.
    for _ in 0..(capacity / 256 * 2) {
        aec.feed_reference(&[0.25; 256]);
        aec.process(&[0.1; 256], &mut out).unwrap();
    }

    let metrics = aec.metrics();
    assert!(
        metrics.reference_dropped > capacity as u64 / 2,
        "the ring must have overflowed for this to be testing anything"
    );
    assert_eq!(
        aec.core.anchor, anchored,
        "a consumer that keeps up keeps its anchor"
    );
    assert_eq!(metrics.reference_reanchors, 0);
}

#[test]
fn a_stalled_consumer_re_anchors_and_is_counted() {
    // A capture stall loses near samples the far stream did not lose, so
    // the near block that arrives next belongs later in the far stream than
    // the standing alignment says, and unlike a caller running momentarily
    // late it never catches up. The step is therefore a new plateau outside
    // everything this caller has ever done, and the model infers the loss
    // once the plateau has survived a second process boundary.
    let config = small_ring_config(100);
    let tail = ms_to_samples(config.tail_ms, config.sample_rate);
    let mut aec = Aec::new(config).unwrap();
    let mut out = Vec::new();

    matched_turns(&mut aec, BASELINE_TURNS, &mut out);
    let anchored = aec.core.anchor;
    assert!(anchored.is_some());
    assert_eq!(aec.metrics().reference_reanchors, 0);

    // The renderer keeps feeding through a stall of several tails.
    aec.feed_reference(&vec![0.25; tail as usize * 4]);
    aec.process(&[0.1; 256], &mut out).unwrap();
    assert_eq!(
        aec.core.anchor, anchored,
        "one block is a spike, not a plateau: the model holds"
    );
    assert_eq!(aec.metrics().reference_reanchors, 0);

    // The step is still there, and still exactly where it was, block after
    // block. That is what a lost span does; a caller merely running ahead
    // eats one block of its lead per call and this stays flat.
    let required = aec.core.lead.required_run();
    assert!(required >= LEAD_STEP_BLOCKS);
    for _ in 1..required {
        assert_eq!(aec.core.anchor, anchored, "not yet a believed plateau");
        aec.feed_reference(&[0.25; 256]);
        aec.process(&[0.1; 256], &mut out).unwrap();
    }
    assert_ne!(aec.core.anchor, anchored, "the stale alignment must be rebuilt");
    assert_eq!(aec.metrics().reference_reanchors, 1);

    // Back in step behind the rebuilt anchor: one stall, one re-anchor.
    let rebuilt = aec.core.anchor;
    matched_turns(&mut aec, 8, &mut out);
    assert_eq!(aec.core.anchor, rebuilt);
    assert_eq!(aec.metrics().reference_reanchors, 1);
}

#[test]
fn the_re_anchor_boundary_is_learned_from_the_callers_own_lead_envelope() {
    // A caller that feeds one block and processes one block rests at a lead
    // of exactly zero and never moves, so its learned envelope has no span
    // at all and the margin falls back to the floor the model always keeps:
    // this caller's own block size, the granularity it delivers audio in.
    // The boundary is therefore 256 here because the CALLER is 256, not
    // because any constant in the crate says so.
    for (extra, expect_reanchor) in [(TURN as u64, false), (TURN as u64 + 1, true)] {
        let mut aec = Aec::new(small_ring_config(100)).unwrap();
        let mut out = Vec::new();
        matched_turns(&mut aec, BASELINE_TURNS, &mut out);
        let anchored = aec.core.anchor;

        // A plateau, held for the run this caller's own oscillation asks
        // for: one block would be a spike.
        aec.feed_reference(&vec![0.25; 256 + extra as usize]);
        aec.process(&[0.1; 256], &mut out).unwrap();
        for _ in 1..LEAD_STEP_BLOCKS {
            aec.feed_reference(&[0.25; 256]);
            aec.process(&[0.1; 256], &mut out).unwrap();
        }

        assert_eq!(
            aec.core.anchor != anchored,
            expect_reanchor,
            "at a sustained lead of {extra} samples against a learned bound of {}",
            aec.core.lead.bound().unwrap_or(0)
        );
    }
}

/// The margin's block-size floor ages on the same rotation as the envelope
/// it floors.
///
/// One oversized block is legitimate (a host recovering from a scheduling
/// stall hands over a long span at once) and is tolerated when it arrives.
/// What is pinned here is the mechanism.
#[test]
fn the_learned_block_size_ages_out_of_the_margin() {
    let mut aec = Aec::new(small_ring_config(100)).unwrap();
    let mut out = Vec::new();
    matched_turns(&mut aec, BASELINE_TURNS, &mut out);
    assert_eq!(aec.core.lead.block(), 256, "the granularity so far");

    // The oversized block, with the reference to match it. Nothing is lost,
    // and the step it puts in the lead is at most the block itself, so the
    // floor it sets covers it: a caller changing block size is tolerated by
    // construction.
    aec.feed_reference(&[0.25; OVERSIZED]);
    aec.process(&[0.1; OVERSIZED], &mut out).unwrap();
    assert_eq!(
        aec.metrics().reference_reanchors,
        0,
        "an oversized block is not a capture loss"
    );
    assert_eq!(
        aec.core.lead.block(),
        OVERSIZED as u64,
        "and it IS the caller's granularity while it is recent"
    );

    // Back to the ordinary cadence for long enough that both buckets rotate
    // past it.
    matched_turns(&mut aec, LEAD_WINDOW_BLOCKS as usize * 2, &mut out);
    assert_eq!(
        aec.core.lead.block(),
        256,
        "and it must be forgotten once it is not"
    );
    assert_eq!(
        aec.metrics().reference_reanchors,
        0,
        "with no seam forged anywhere along the way"
    );
}

/// Part four of the trigger, on its own. A lead that overshoots for a
/// single block and comes back is the caller's transport being momentarily
/// late, and a late caller catches up; a lost capture span cannot.
#[test]
fn a_lead_spike_that_comes_back_is_not_a_discontinuity() {
    let mut aec = Aec::new(small_ring_config(100)).unwrap();
    let mut out = Vec::new();
    matched_turns(&mut aec, BASELINE_TURNS, &mut out);
    let anchored = aec.core.anchor;

    // A whole second of reference arrives early, and the caller then feeds
    // nothing until the near stream has caught back up to it.
    aec.feed_reference(&vec![0.25; 8000]);
    aec.process(&[0.1; 256], &mut out).unwrap();
    for _ in 0..(8000 / 256) {
        aec.process(&[0.1; 256], &mut out).unwrap();
    }
    matched_turns(&mut aec, 8, &mut out);

    assert_eq!(aec.core.anchor, anchored, "the caller was early, not short");
    assert_eq!(aec.metrics().reference_reanchors, 0);
}

/// Part one of the trigger. Before a baseline exists the model has seen
/// nothing of this caller and refuses to infer, which is a deliberate
/// warm-up hole: a loss inside the first [`LEAD_BASELINE_BLOCKS`] blocks is
/// not inferred, and the alternative would be a model guessing at a caller
/// it has never watched.
#[test]
fn a_step_before_the_baseline_exists_is_not_inferred() {
    let mut aec = Aec::new(small_ring_config(100)).unwrap();
    let mut out = Vec::new();
    matched_turns(&mut aec, 4, &mut out);
    let anchored = aec.core.anchor;

    aec.feed_reference(&vec![0.25; 4000]);
    for _ in 0..4 {
        aec.feed_reference(&[0.25; 256]);
        aec.process(&[0.1; 256], &mut out).unwrap();
    }

    assert_eq!(aec.core.anchor, anchored);
    assert_eq!(aec.metrics().reference_reanchors, 0);
}

/// The structural backstop, which is not the learned model and does not
/// wait for it. Past the ring's retained depth the standing alignment
/// cannot be served by any sample the engine still holds, so every read
/// starves; there is no judgement left to make.
#[test]
fn a_lead_past_the_rings_depth_re_anchors_even_with_no_baseline() {
    let config = small_ring_config(100);
    let capacity = derive_ring_capacity(&config);
    let mut aec = Aec::new(config).unwrap();
    let mut out = Vec::new();

    aec.feed_reference(&[0.25; 256]);
    aec.process(&[0.1; 256], &mut out).unwrap();
    let anchored = aec.core.anchor;

    aec.feed_reference(&vec![0.25; capacity + 256]);
    aec.process(&[0.1; 256], &mut out).unwrap();

    assert_ne!(aec.core.anchor, anchored);
    assert_eq!(aec.metrics().reference_reanchors, 1);
}

/// The lead is a transport quantity, so a reference stall (the far feed
/// pausing while the near stream keeps going) drives it toward zero, never
/// past the bound. A stall is not a timeline skip and must not forge a
/// seam.
#[test]
fn a_reference_stall_with_no_timeline_skip_forges_no_seam() {
    let mut aec = Aec::new(small_ring_config(100)).unwrap();
    let mut out = Vec::new();
    matched_turns(&mut aec, BASELINE_TURNS, &mut out);
    let anchored = aec.core.anchor;

    // The far feed stops outright for a second while capture continues.
    for _ in 0..(8000 / 256) {
        aec.process(&[0.1; 256], &mut out).unwrap();
    }
    // It resumes, and catches back up in one burst.
    aec.feed_reference(&vec![0.25; 8000]);
    matched_turns(&mut aec, 16, &mut out);

    assert_eq!(aec.core.anchor, anchored, "no near sample was ever lost");
    assert_eq!(aec.metrics().reference_reanchors, 0);
}

#[test]
fn reset_clears_streaming_state() {
    let mut aec = Aec::new(AecConfig::default()).unwrap();
    aec.feed_reference(&[0.5; 512]);
    let mut out = Vec::new();
    let _ = aec.process(&[0.5; 256], &mut out);
    aec.reset();
    let metrics = aec.metrics();
    assert_eq!(metrics.reference_starved, 0);
    assert_eq!(metrics.reference_dropped, 0);
    assert_eq!(aec.core.anchor, None);
    assert_eq!(aec.metrics().delay_samples, None);
}

/// A caller whose reference chunk does not divide its near block still
/// feeds and reads at the same rate, so it is not behind and nothing about
/// its alignment is stale.
#[test]
fn a_mismatched_reference_chunk_never_makes_a_healthy_lock_suspect() {
    let rate = AecConfig::default().sample_rate as usize;
    let clip = rate * 7;
    let (far, mic) = clean_delayed_pair(clip, rate / 10);

    let mut aec = Aec::new(AecConfig::default()).unwrap();
    let mut out = Vec::new();
    let mut fed = 0usize;
    let mut near = 0usize;
    while near + TURN <= clip {
        while fed < near + TURN {
            let end = (fed + FAR_CHUNK).min(clip);
            aec.feed_reference(&far[fed..end]);
            fed = end;
        }
        aec.process(&mic[near..near + TURN], &mut out).unwrap();
        near += TURN;
    }

    let metrics = aec.metrics();
    assert!(
        metrics.reference_dropped > 0,
        "the clip must outrun the ring for this to be testing anything"
    );
    assert_eq!(
        metrics.reference_reanchors, 0,
        "a caller that keeps pace has not fallen behind, whatever its chunk size"
    );
    assert!(
        matches!(metrics.delay.status, DelayStatus::Locked(_)),
        "the acquisition must have promoted a lock: {:?}",
        metrics.delay.status
    );

    let acquirer = aec.core.acquirer
        .as_ref()
        .expect("no hint, so an estimator runs");
    assert_eq!(
        acquirer.tracker_suspect(),
        Some(false),
        "no re-anchor happened, so nothing reached the tracker as a discontinuity"
    );
}

/// Declaring continuity is a no-op, so a host that declares unconditionally
/// on every callback pays nothing for the blocks where nothing happened.
#[test]
fn declaring_continuity_changes_nothing() {
    let mut aec = Aec::new(small_ring_config(100)).unwrap();
    let mut out = Vec::new();
    matched_turn(&mut aec, &[0.25; 256], &[0.1; 256], &mut out);
    let anchored = aec.core.anchor;

    aec.declare_capture_continuity(CaptureContinuity::Continuous);
    matched_turn(&mut aec, &[0.25; 256], &[0.1; 256], &mut out);

    assert_eq!(aec.core.anchor, anchored, "no re-anchor");
    let metrics = aec.metrics();
    assert_eq!(metrics.capture_discontinuities, 0);
    assert_eq!(metrics.capture_samples_lost, 0);
    assert_eq!(metrics.reference_reanchors, 0);
}

/// The whole point of the explicit path. With the near stream sitting
/// exactly at the reference frontier there is no lag for the automatic rule
/// to measure and nothing for it to infer, and it is right about that: the
/// samples the capture device dropped left no trace in either stream. Only
/// the host knows, and saying so re-anchors.
#[test]
fn a_declared_discontinuity_re_anchors_with_no_frontier_lag_at_all() {
    let mut aec = Aec::new(small_ring_config(100)).unwrap();
    let mut out = Vec::new();
    for _ in 0..4 {
        matched_turn(&mut aec, &[0.25; 256], &[0.1; 256], &mut out);
    }
    let anchored = aec.core.anchor;
    assert_eq!(
        aec.core.ring
            .next_abs()
            .saturating_sub(aec.core.anchor.unwrap() + aec.core.near_processed),
        0,
        "the case is only meaningful at the standing lag of zero a matched \
         caller holds, where the automatic rule is nowhere near firing"
    );

    aec.declare_capture_continuity(CaptureContinuity::Discontinuity {
        lost_samples: Some(800),
    });
    matched_turn(&mut aec, &[0.25; 256], &[0.1; 256], &mut out);

    assert_ne!(aec.core.anchor, anchored, "the alignment must be rebuilt");
    assert_eq!(aec.core.near_processed, 256, "counted from the new anchor");
    let metrics = aec.metrics();
    assert_eq!(metrics.capture_discontinuities, 1);
    assert_eq!(metrics.capture_samples_lost, 800);
    assert_eq!(
        metrics.reference_reanchors, 0,
        "the declaration supersedes the automatic rule; it does not borrow \
         its counter"
    );
}

/// A declaration is latched until a `process` consumes it, so a host that
/// declares a discontinuity and then reports continuity before the next
/// block still gets the re-anchor. Losing a real discontinuity costs the
/// cancellation outright; a spurious one costs a re-anchor the engine
/// performs at every stream start anyway.
#[test]
fn a_declared_discontinuity_survives_a_later_continuous_declaration() {
    let mut aec = Aec::new(small_ring_config(100)).unwrap();
    let mut out = Vec::new();
    matched_turn(&mut aec, &[0.25; 256], &[0.1; 256], &mut out);
    let anchored = aec.core.anchor;

    aec.declare_capture_continuity(CaptureContinuity::Discontinuity { lost_samples: None });
    aec.declare_capture_continuity(CaptureContinuity::Continuous);
    matched_turn(&mut aec, &[0.25; 256], &[0.1; 256], &mut out);

    assert_ne!(aec.core.anchor, anchored);
    assert_eq!(aec.metrics().capture_discontinuities, 1);
    assert_eq!(
        aec.metrics().capture_samples_lost,
        0,
        "a host that supplied no count contributes nothing"
    );
}

/// Two declarations in one gap describe one seam in the near stream, so
/// they latch into one re-anchor, and the losses they reported add.
#[test]
fn two_declarations_before_one_process_latch_into_one_re_anchor() {
    let mut aec = Aec::new(small_ring_config(100)).unwrap();
    let mut out = Vec::new();
    matched_turn(&mut aec, &[0.25; 256], &[0.1; 256], &mut out);

    aec.declare_capture_continuity(CaptureContinuity::Discontinuity {
        lost_samples: Some(300),
    });
    aec.declare_capture_continuity(CaptureContinuity::Discontinuity {
        lost_samples: Some(120),
    });
    matched_turn(&mut aec, &[0.25; 256], &[0.1; 256], &mut out);

    let metrics = aec.metrics();
    assert_eq!(
        metrics.capture_discontinuities, 1,
        "one seam, one re-anchor"
    );
    assert_eq!(metrics.capture_samples_lost, 420, "the reported losses add");
}

/// The declaration is consumed by the `process` it applies to and does not
/// linger into the next one.
#[test]
fn a_declaration_applies_to_exactly_one_process() {
    let mut aec = Aec::new(small_ring_config(100)).unwrap();
    let mut out = Vec::new();
    matched_turn(&mut aec, &[0.25; 256], &[0.1; 256], &mut out);

    aec.declare_capture_continuity(CaptureContinuity::Discontinuity { lost_samples: None });
    matched_turn(&mut aec, &[0.25; 256], &[0.1; 256], &mut out);
    let rebuilt = aec.core.anchor;
    matched_turn(&mut aec, &[0.25; 256], &[0.1; 256], &mut out);

    assert_eq!(aec.core.anchor, rebuilt, "the second block re-anchors nothing");
    assert_eq!(aec.metrics().capture_discontinuities, 1);
}

/// A hinted engine runs no acquisition at all, and must still take the
/// declaration: a capture device drops samples whether or not the caller
/// measured the delay itself.
#[test]
fn a_hinted_engine_takes_a_declared_discontinuity() {
    let config = configured(|config| {
        config.delay_hint_ms = Some(16);
    });
    let mut aec = Aec::new(config).unwrap();
    assert!(aec.core.acquirer.is_none(), "a hint constructs no acquisition");
    let mut out = Vec::new();
    matched_turn(&mut aec, &[0.25; 256], &[0.1; 256], &mut out);
    let anchored = aec.core.anchor;

    aec.declare_capture_continuity(CaptureContinuity::Discontinuity {
        lost_samples: Some(64),
    });
    matched_turn(&mut aec, &[0.25; 256], &[0.1; 256], &mut out);

    assert_ne!(aec.core.anchor, anchored);
    assert_eq!(aec.metrics().capture_discontinuities, 1);
    assert_eq!(
        aec.metrics().delay_samples,
        Some(256),
        "the hint is the caller's own measurement and survives the seam"
    );
}

/// A pending declaration is streaming state, so the whole-stream reset
/// clears it along with everything else.
#[test]
fn reset_clears_a_pending_declaration_and_its_counters() {
    let mut aec = Aec::new(small_ring_config(100)).unwrap();
    let mut out = Vec::new();
    matched_turn(&mut aec, &[0.25; 256], &[0.1; 256], &mut out);
    aec.declare_capture_continuity(CaptureContinuity::Discontinuity {
        lost_samples: Some(64),
    });
    matched_turn(&mut aec, &[0.25; 256], &[0.1; 256], &mut out);
    assert_eq!(aec.metrics().capture_discontinuities, 1);

    aec.declare_capture_continuity(CaptureContinuity::Discontinuity {
        lost_samples: Some(64),
    });
    aec.reset();
    matched_turn(&mut aec, &[0.25; 256], &[0.1; 256], &mut out);

    let metrics = aec.metrics();
    assert_eq!(metrics.capture_discontinuities, 0);
    assert_eq!(metrics.capture_samples_lost, 0);
}

/// The acquisition is told about a declared seam directly, and this is the
/// test that proves the telling is load-bearing rather than decorative.
///
/// At a standing lag of zero the re-anchor moves the block base by nothing
/// the acquisition can see: its far-absolute cursor lands exactly where it
/// expected the next block to start. The inferred path therefore has no
/// jump to detect, while the evidence it is holding straddles the seam just
/// the same. The lock survives as a PRIOR (the delay is unchanged) but is
/// now suspect, which halves the rope its reacquisition trigger is given.
#[test]
fn a_declared_discontinuity_makes_the_acquisition_suspect_its_lock() {
    let rate = AecConfig::default().sample_rate as usize;
    let clip = rate * 7;
    let (far, mic) = clean_delayed_pair(clip, rate / 10);

    let mut aec = Aec::new(AecConfig::default()).unwrap();
    let mut out = Vec::new();
    let mut cursor = 0usize;
    // One turn short of the clip: the last one is spent after the
    // declaration below.
    while cursor + 2 * TURN <= clip {
        matched_turn(
            &mut aec,
            &far[cursor..cursor + TURN],
            &mic[cursor..cursor + TURN],
            &mut out,
        );
        cursor += TURN;
    }

    let locked = aec.metrics().delay_samples;
    assert!(
        matches!(aec.metrics().delay.status, DelayStatus::Locked(_)),
        "the case needs a standing lock: {:?}",
        aec.metrics().delay.status
    );
    assert_eq!(
        aec.acquirer_mut().unwrap().tracker_suspect(),
        Some(false),
        "a healthy matched stream is not suspect"
    );
    // What the acquisition will be handed as its next block base if the
    // alignment is rebuilt here. It is exactly the base it already expects,
    // because the engine passes `anchor + near_processed` and the rebuilt
    // anchor lands on that same index.
    let expected_base = aec.core.anchor.unwrap() + aec.core.near_processed;

    aec.declare_capture_continuity(CaptureContinuity::Discontinuity {
        lost_samples: Some(800),
    });
    matched_turn(
        &mut aec,
        &far[cursor..cursor + TURN],
        &mic[cursor..cursor + TURN],
        &mut out,
    );

    assert_eq!(
        aec.core.anchor,
        Some(expected_base),
        "the rebuilt anchor lands on the very index the acquisition already \
         expected, so the block base did not move and the inferred path had \
         no jump to detect: only the declaration could have told it"
    );
    assert_eq!(
        aec.acquirer_mut().unwrap().tracker_suspect(),
        Some(true),
        "the acquisition must learn of a seam it could not have inferred"
    );
    assert_eq!(
        aec.metrics().delay_samples,
        locked,
        "the standing delay is kept as a prior, not discarded: the timeline \
         moved, the echo path did not"
    );
    assert_eq!(aec.metrics().reference_reanchors, 0);
    assert_eq!(aec.metrics().capture_discontinuities, 1);
}

/// With nothing processed there is no partial block to drain, so flush
/// appends nothing and leaves the caller's buffer untouched.
#[test]
fn flush_with_no_carry_appends_nothing() {
    let mut aec = Aec::new(AecConfig::default()).unwrap();
    let mut out = vec![1.0, 2.0];
    aec.flush(&mut out).expect("flush succeeds with no carry");
    assert_eq!(out, vec![1.0, 2.0]);
}

#[test]
fn graded_gate_holds_full_correction_when_not_reacquiring() {
    // The target while not reacquiring is full correction, and the gain is
    // pinned to exactly 1.0 by the clamp, which is what lets the blend leave
    // the correction bit-for-bit untouched.
    let mut gate = Gate::new(1_600, 3_200);
    for _ in 0..5_000 {
        assert_eq!(gate.step(false), 1.0);
    }
}

#[test]
fn graded_gate_fade_out_reaches_passthrough_after_exactly_fade_out_samples() {
    // 100 ms at 16 kHz. The ramp decreases strictly and reaches exactly 0.0
    // on the 1600th reacquiring sample, then holds.
    let mut gate = Gate::new(1_600, 3_200);
    let mut prev = 1.0_f32;
    for k in 1..1_600 {
        let g = gate.step(true);
        assert!(
            g < prev,
            "fade-out must decrease at step {k}: {g} !< {prev}"
        );
        assert!(
            g > 0.0,
            "fade-out must not reach passthrough early (step {k})"
        );
        prev = g;
    }
    assert_eq!(
        gate.step(true),
        0.0,
        "fade-out reaches passthrough at exactly fade_out_samples"
    );
    for _ in 0..500 {
        assert_eq!(
            gate.step(true),
            0.0,
            "and holds passthrough while reacquiring"
        );
    }
}

#[test]
fn graded_gate_fade_in_reaches_full_correction_after_exactly_fade_in_samples() {
    // 200 ms at 16 kHz. From passthrough, the ramp increases strictly and
    // reaches exactly 1.0 on the 3200th non-reacquiring sample, then holds.
    let mut gate = Gate::new(1_600, 3_200);
    for _ in 0..1_600 {
        gate.step(true);
    }
    assert_eq!(gate.gain(), 0.0, "must be at passthrough before the fade-in");
    let mut prev = 0.0_f32;
    for k in 1..3_200 {
        let g = gate.step(false);
        assert!(g > prev, "fade-in must increase at step {k}: {g} !> {prev}");
        assert!(
            g < 1.0,
            "fade-in must not reach full correction early (step {k})"
        );
        prev = g;
    }
    assert_eq!(
        gate.step(false),
        1.0,
        "fade-in reaches full correction at exactly fade_in_samples"
    );
    for _ in 0..500 {
        assert_eq!(gate.step(false), 1.0, "and holds full correction");
    }
}

#[test]
fn graded_gate_reverses_from_the_current_gain_without_stepping() {
    // The anti-flap property. A re-lock halfway through the fade-out
    // reverses toward full correction FROM the current gain, by one up-step;
    // it does not jump to 0.0 or 1.0.
    let mut gate = Gate::new(1_600, 3_200);
    for _ in 0..800 {
        gate.step(true);
    }
    let mid = gate.gain();
    assert!(mid > 0.0 && mid < 1.0, "must be mid-fade, got {mid}");
    let after = gate.step(false);
    assert!(
        after > mid,
        "reversal rises from the current gain, not from 0"
    );
    assert!(after < 1.0, "reversal must not jump to full correction");
    assert_eq!(
        after,
        (mid + gate.up_step).min(1.0),
        "reversal continues from the current gain by one up-step"
    );

    // Symmetric: re-entering a reacquisition mid-fade-in reverses downward
    // from the current gain by one down-step.
    for _ in 0..200 {
        gate.step(false);
    }
    let up = gate.gain();
    let down = gate.step(true);
    assert!(
        down < up && down > 0.0,
        "reversal falls from the current gain"
    );
    assert_eq!(down, (up - gate.down_step).max(0.0));
}

#[test]
fn graded_gate_stays_in_range_and_continuous_under_status_flaps() {
    // However the status flaps, the gain never leaves [0, 1] and never moves
    // by more than one step per sample, so the emitted signal is continuous.
    let mut gate = Gate::new(1_600, 3_200);
    let max_step = gate.down_step.max(gate.up_step);
    let mut prev = gate.gain();
    let mut state = 0x9E37_79B9_u32;
    for _ in 0..200_000 {
        state = state.wrapping_mul(1_664_525).wrapping_add(1_013_904_223);
        let reacquiring = (state >> 16) & 1 == 0;
        let g = gate.step(reacquiring);
        assert!((0.0..=1.0).contains(&g), "gain left [0, 1]: {g}");
        assert!(
            (g - prev).abs() <= max_step + f32::EPSILON,
            "gain moved more than one step: {prev} -> {g}"
        );
        prev = g;
    }
}

#[test]
fn the_graded_default_is_byte_identical_to_preserve_without_a_reacquisition() {
    // The bit-identity crux. With no reacquisition the fade never leaves
    // full correction, so the graded default is byte-identical to
    // PreserveCorrection over the whole stream: initial acquisition, the
    // lock, and steady state.
    let (far, near) = clean_delayed_pair(16_000 * 10, 1_600);
    let graded = drive_policy(AecConfig::default(), &far, &near, Seam::Nothing);
    let preserve = drive_policy(preserve_config(), &far, &near, Seam::Nothing);
    assert!(
        matches!(graded.status_before_seam, DelayStatus::Locked(_)),
        "the pair must lock, or the test proves nothing: {:?}",
        graded.status_before_seam
    );
    assert!(
        graded.reacquiring_per_turn.iter().all(|&r| !r),
        "a static pair must never reacquire, which is WHY the outputs match"
    );
    assert_bits_identical(&graded.out, &preserve.out);
}

#[test]
fn the_default_policy_leaves_startup_output_unchanged() {
    // The policy is Reacquiring-only, and initial acquisition never enters
    // Reacquiring, so the first two seconds are byte-identical under the
    // default. Startup is untouched.
    let (far, near) = clean_delayed_pair(16_000 * 3, 1_600);
    let cut = 16_000 * 2;
    let graded = drive_policy(AecConfig::default(), &far[..cut], &near[..cut], Seam::Nothing);
    let preserve = drive_policy(preserve_config(), &far[..cut], &near[..cut], Seam::Nothing);
    assert!(
        graded.reacquiring_per_turn.iter().all(|&r| !r),
        "startup must never reacquire"
    );
    assert_bits_identical(&graded.out, &preserve.out);
}

#[test]
fn a_reacquisition_fades_the_correction_toward_the_capture() {
    // The policy fires ONLY in Reacquiring. A forced reacquisition is applied
    // identically to a graded engine and a preserve engine, so their delay
    // decisions and canceller I/O are bit-identical and the ONLY difference
    // is the graded blend. Before the reacquisition the two are
    // byte-identical; during it the graded output fades toward the untouched
    // capture, staying a convex blend of the correction and the capture.
    let (far, near) = clean_delayed_pair(16_000 * 12, 1_600);
    let force_turn = 505;
    let graded = drive_policy(
        AecConfig::default(),
        &far,
        &near,
        Seam::ForceReacquire { turn: force_turn },
    );
    let preserve = drive_policy(
        preserve_config(),
        &far,
        &near,
        Seam::ForceReacquire { turn: force_turn },
    );

    assert!(
        matches!(graded.status_before_seam, DelayStatus::Locked(_)),
        "the forced case is only meaningful once a lock stands: {:?}",
        graded.status_before_seam
    );
    assert_eq!(graded.out.len(), preserve.out.len());
    assert!(
        graded.reacquiring_per_turn.iter().any(|&r| r),
        "the forced trigger must publish Reacquiring"
    );

    let boundary = force_turn * TURN;
    // Before the reacquisition (leaving a one-block margin for the status to
    // take effect): byte-identical.
    let safe = boundary.saturating_sub(TURN);
    for (k, (&g, &p)) in graded.out[..safe]
        .iter()
        .zip(&preserve.out[..safe])
        .enumerate()
    {
        assert_eq!(
            g.to_bits(),
            p.to_bits(),
            "byte-identical before the reacquisition at sample {k}"
        );
    }
    // During and after: the fade engaged (a substantial span changed), every
    // sample is finite, and each graded sample is a convex blend of the
    // correction (the preserve output) and the lag-0 capture.
    let end = graded.out.len();
    let mut changed = 0usize;
    for (offset, ((&g, &corrected), &capture)) in graded.out[boundary..end]
        .iter()
        .zip(&preserve.out[boundary..end])
        .zip(&near[boundary..end])
        .enumerate()
    {
        let k = boundary + offset;
        assert!(g.is_finite(), "graded output must stay finite at {k}");
        let lo = corrected.min(capture) - 1e-6;
        let hi = corrected.max(capture) + 1e-6;
        assert!(
            g >= lo && g <= hi,
            "graded {g} must be a convex blend of correction {corrected} and \
             capture {capture} at sample {k}"
        );
        if g.to_bits() != corrected.to_bits() {
            changed += 1;
        }
    }
    assert!(
        changed > 1_000,
        "the reacquisition must fade a substantial span; changed {changed} samples"
    );
}

#[test]
fn a_declared_capture_loss_stays_locked_and_leaves_output_unchanged() {
    // A declared capture loss re-anchors the alignment, but the status stays
    // Locked (the re-anchor is itself the repair), so the fade holds full
    // correction and the graded output is byte-identical to Preserve.
    let (far, near) = clean_delayed_pair(16_000 * 12, 1_600);
    let graded = drive_policy(
        AecConfig::default(),
        &far,
        &near,
        Seam::DeclaredLoss { lag: 1_600 },
    );
    let preserve = drive_policy(
        preserve_config(),
        &far,
        &near,
        Seam::DeclaredLoss { lag: 1_600 },
    );
    assert!(
        graded.reanchored,
        "the declared loss must actually re-anchor"
    );
    assert!(
        graded.reacquiring_per_turn.iter().all(|&r| !r),
        "a declared re-anchor must not enter Reacquiring"
    );
    assert_bits_identical(&graded.out, &preserve.out);
}

#[test]
fn an_inferred_capture_loss_stays_locked_and_leaves_output_unchanged() {
    // The same as the declared case but the host says nothing, so the engine
    // infers the seam from the frontier lead. Still a re-anchor while Locked,
    // still byte-identical output.
    let (far, near) = clean_delayed_pair(16_000 * 12, 1_600);
    let graded = drive_policy(
        AecConfig::default(),
        &far,
        &near,
        Seam::InferredLoss { lag: 6_000 },
    );
    let preserve = drive_policy(
        preserve_config(),
        &far,
        &near,
        Seam::InferredLoss { lag: 6_000 },
    );
    assert!(
        graded.reanchored,
        "the inferred loss must actually re-anchor"
    );
    assert!(
        graded.reacquiring_per_turn.iter().all(|&r| !r),
        "an inferred re-anchor must not enter Reacquiring"
    );
    assert_bits_identical(&graded.out, &preserve.out);
}

#[test]
fn reset_restores_full_correction_and_clears_the_pending_mirror() {
    // A reset is the whole-stream restart: it returns the fade to full
    // correction and drops any pending samples, so a fade in progress does
    // not bleed into the next stream.
    let (far, near) = clean_delayed_pair(16_000 * 10, 1_600);
    let mut aec = Aec::new(AecConfig::default()).unwrap();
    let mut out = Vec::new();
    let mut cursor = 0usize;
    while cursor + TURN <= 16_000 * 8 {
        aec.feed_reference(&far[cursor..cursor + TURN]);
        aec.process(&near[cursor..cursor + TURN], &mut out)
            .unwrap();
        cursor += TURN;
    }
    assert!(matches!(aec.metrics().delay.status, DelayStatus::Locked(_)));

    aec.acquirer_mut().unwrap().enter_reacquire(ReacquireTrigger::ConfidenceLost);
    aec.feed_reference(&far[cursor..cursor + TURN]);
    aec.process(&near[cursor..cursor + TURN], &mut out)
        .unwrap();
    cursor += TURN;
    let gain_after_reacquire = match &aec.core.output_blend {
        OutputBlend::Graded(gate) => float(gate.gain),
        OutputBlend::Preserve => panic!("the default policy is graded"),
    };
    assert!(
        gain_after_reacquire < 1.0,
        "the reacquisition must have started fading: gain {gain_after_reacquire}"
    );
    // A few more turns so pending samples exist mid-fade.
    for _ in 0..3 {
        aec.feed_reference(&far[cursor..cursor + TURN]);
        aec.process(&near[cursor..cursor + TURN], &mut out)
            .unwrap();
        cursor += TURN;
    }

    aec.reset();
    match &aec.core.output_blend {
        OutputBlend::Graded(gate) => {
            assert_eq!(float(gate.gain), 1.0, "reset restores full correction");
            assert!(
                gate.pending_near.is_empty(),
                "reset clears the pending mirror"
            );
            assert!(
                gate.pending_gain.is_empty(),
                "reset clears the pending gains"
            );
        }
        OutputBlend::Preserve => panic!("the default policy is graded"),
    }
}

#[test]
fn a_flush_mid_fade_drains_the_blend_neutrally() {
    // Turns that do not divide the block leave the canceller holding a
    // partial block, and a mid-stream promote resets it, so this exercises
    // both the flush-through-blend path and the reset/pending-mirror
    // coupling (the flush debug-assert that emitted == pending is the
    // regression guard). The blend is length-neutral and finiteness-neutral:
    // a graded run matches a preserve run in length, and every sample stays
    // finite. Because the flush advances no ramp, it adds no final jump.
    let (far, near) = clean_delayed_pair(16_000 * 9, 1_600);
    let run = |config: AecConfig| -> Vec<f32> {
        let mut aec = Aec::new(config).unwrap();
        let mut out = Vec::new();
        let mut cursor = 0usize;
        let mut forced = false;
        while cursor + RAGGED_TURN <= 16_000 * 9 {
            aec.feed_reference(&far[cursor..cursor + RAGGED_TURN]);
            if !forced && cursor >= 16_000 * 8 {
                aec.acquirer_mut()
                    .expect("no hint, so an estimator runs")
                    .enter_reacquire(ReacquireTrigger::ConfidenceLost);
                forced = true;
            }
            aec.process(&near[cursor..cursor + RAGGED_TURN], &mut out).unwrap();
            cursor += RAGGED_TURN;
        }
        aec.flush(&mut out).unwrap();
        out
    };
    let graded = run(AecConfig::default());
    let preserve = run(preserve_config());
    assert_eq!(
        graded.len(),
        preserve.len(),
        "the blend changes no emitted length"
    );
    assert!(
        graded.iter().all(|s| s.is_finite()),
        "every emitted sample stays finite across the flush"
    );
}

#[test]
fn fade_ms_to_samples_does_not_overflow_at_the_u32_ceiling() {
    // The product is `ms(u32) * sample_rate(u32)` computed in `u64`. The
    // widest case the engine can present is the maximum `u32` fade at the
    // maximum supported rate; it must not overflow `u64` (a debug build
    // panics on overflow, so a green test here is the proof).
    let samples = fade_ms_to_samples(u32::MAX, 48_000);
    assert_eq!(samples, u32::MAX as u64 * 48_000 / 1_000);
    assert!(samples < u64::MAX, "the conversion stays well inside u64");
    // Truncation toward zero at a rate that does not divide evenly.
    assert_eq!(fade_ms_to_samples(1, 44_100), 44);
    assert_eq!(fade_ms_to_samples(100, 44_100), 4_410);
    assert_eq!(fade_ms_to_samples(1, 8_000), 8);
}

#[test]
fn zero_fade_out_is_an_immediate_one_sample_cut_to_passthrough() {
    // fade_out_ms = 0 -> zero fade samples -> the `.max(1)` makes the
    // down-step exactly 1.0, so the first reacquiring sample steps straight
    // to passthrough with no division by zero and no non-finite gain.
    let mut gate = Gate::new(0, 3_200);
    assert!(gate.down_step.is_finite());
    assert_eq!(gate.down_step, 1.0, "a zero fade-out is a one-sample cut");
    assert_eq!(
        gate.step(true),
        0.0,
        "reaches passthrough on the first sample"
    );
    assert_eq!(gate.step(true), 0.0, "and holds it");
}

#[test]
fn zero_fade_in_is_an_immediate_one_sample_return_to_full_correction() {
    let mut gate = Gate::new(1_600, 0);
    assert!(gate.up_step.is_finite());
    assert_eq!(gate.up_step, 1.0, "a zero fade-in is a one-sample restore");
    // Drive to passthrough, then a single non-reacquiring sample restores it.
    for _ in 0..1_600 {
        gate.step(true);
    }
    assert_eq!(gate.gain(), 0.0, "at passthrough before the restore");
    assert_eq!(
        gate.step(false),
        1.0,
        "restores full correction on one sample"
    );
    assert_eq!(gate.step(false), 1.0, "and holds it");
}

#[test]
fn both_fades_zero_stay_finite_and_in_range_under_status_flaps() {
    // Both zero: every step is a one-sample hard switch. The gain must stay
    // exactly on the endpoints, never leave [0, 1], and never go non-finite,
    // however the status flaps.
    let mut gate = Gate::new(0, 0);
    let mut state = 0x1234_5678_u32;
    for _ in 0..50_000 {
        state = state.wrapping_mul(1_664_525).wrapping_add(1_013_904_223);
        let reacquiring = (state >> 17) & 1 == 0;
        let g = gate.step(reacquiring);
        assert!(g.is_finite(), "gain must stay finite");
        assert!(
            g == 0.0 || g == 1.0,
            "a zero fade only ever sits on an endpoint: {g}"
        );
        assert_eq!(g, if reacquiring { 0.0 } else { 1.0 });
    }
}

#[test]
fn very_large_fades_stay_finite_and_in_range_and_never_go_non_finite() {
    // A `u32::MAX` fade at 48 kHz is about 2.06e11 samples; its per-sample
    // step is about 4.85e-12, which is below f32 resolution near 1.0, so the
    // gain holds at exactly 1.0 (full correction). That is the correct limit
    // of an absurdly slow fade, not a stuck-gain BUG: the gain is finite and
    // in range, no division by zero occurred, and the policy simply
    // degenerates to holding the correction, exactly as PreserveCorrection
    // would. A merely large fade (100 s) does resolve and progresses.
    let mut huge = Gate::new(
        fade_ms_to_samples(u32::MAX, 48_000),
        fade_ms_to_samples(u32::MAX, 48_000),
    );
    assert!(huge.down_step.is_finite() && huge.down_step > 0.0);
    assert!(huge.up_step.is_finite() && huge.up_step > 0.0);
    for _ in 0..10_000 {
        let g = huge.step(true);
        assert!(g.is_finite() && (0.0..=1.0).contains(&g));
    }

    // A large-but-resolvable fade (100 s at 16 kHz) makes real progress
    // toward passthrough without ever leaving the range.
    let mut big = Gate::new(fade_ms_to_samples(100_000, 16_000), 3_200);
    assert!(big.down_step > 0.0 && big.down_step < 1.0);
    let start = big.gain();
    for _ in 0..10_000 {
        let g = big.step(true);
        assert!(g.is_finite() && (0.0..=1.0).contains(&g));
    }
    assert!(big.gain() < start, "a resolvable large fade must progress");
}

#[test]
fn fade_endpoints_are_pinned_exactly_regardless_of_block_alignment() {
    // The ramp advances per sample, so a fade whose sample count does not
    // divide the driving block size still lands EXACTLY on 0.0 and 1.0 by the
    // clamp, never overshooting into a negative or above-one gain. 777 and
    // 513 are coprime with the usual 256 block, so the endpoints never fall
    // on a block boundary. The `1.0 / n` step is not exact in f32, so the
    // endpoint is reached within a sample of `n` (once the running sum
    // crosses the clamp), NOT necessarily on exactly the n-th sample; the
    // load-bearing property is that the clamp pins it to exactly 0.0 / 1.0
    // and holds it there, never a value just past the endpoint.
    let mut gate = Gate::new(777, 513);
    for k in 1..=800 {
        let g = gate.step(true);
        assert!(
            (0.0..=1.0).contains(&g),
            "gain left [0, 1] at step {k}: {g}"
        );
    }
    assert_eq!(
        gate.gain(), 0.0,
        "clamped to exactly passthrough by sample 800"
    );
    for _ in 0..500 {
        assert_eq!(gate.step(true), 0.0, "and pinned there, never below 0.0");
    }
    for k in 1..=550 {
        let g = gate.step(false);
        assert!(
            (0.0..=1.0).contains(&g),
            "gain left [0, 1] at step {k}: {g}"
        );
    }
    assert_eq!(
        gate.gain(), 1.0,
        "clamped to exactly full correction by sample 550"
    );
    for _ in 0..500 {
        assert_eq!(gate.step(false), 1.0, "and pinned there, never above 1.0");
    }
    // Reversing from a fractional mid-point stays exactly in range and still
    // lands exactly on full correction.
    for _ in 0..300 {
        gate.step(true);
    }
    let mid = gate.gain();
    assert!(mid > 0.0 && mid < 1.0, "must be mid-fade, got {mid}");
    for _ in 0..2_000 {
        let g = gate.step(false);
        assert!((0.0..=1.0).contains(&g));
    }
    assert_eq!(
        gate.gain(), 1.0,
        "reversal still lands exactly on full correction"
    );
}

#[test]
fn engine_accepts_zero_and_max_fades_and_stays_finite_at_every_supported_rate() {
    // The engine must construct and run for the zero and `u32::MAX` fade
    // durations at every supported rate, producing only finite output. The
    // fade fields are never rejected: `Aec::new` validates the rate, tail,
    // and delay windows, and the fade durations are always well-defined.
    for &rate in &[8_000_u32, 16_000, 22_050, 44_100, 48_000] {
        for policy in [
            OutputTransitionPolicy::GradedReacquisition {
                fade_out_ms: 0,
                fade_in_ms: 0,
            },
            OutputTransitionPolicy::GradedReacquisition {
                fade_out_ms: u32::MAX,
                fade_in_ms: u32::MAX,
            },
        ] {
            let config = configured(|config| {
        config.sample_rate = rate;
        config.output_transition = policy;
    });
            let mut aec = Aec::new(config).expect("fade durations are never rejected");
            let block = rate as usize / 100; // 10 ms blocks
            let far = vec![0.1_f32; block * 40];
            let near = vec![0.05_f32; block * 40];
            let mut out = Vec::new();
            let mut cursor = 0;
            while cursor + block <= near.len() {
                aec.feed_reference(&far[cursor..cursor + block]);
                aec.process(&near[cursor..cursor + block], &mut out)
                    .expect("process succeeds");
                cursor += block;
            }
            aec.flush(&mut out).expect("flush succeeds");
            assert!(
                out.iter().all(|s| s.is_finite()),
                "rate {rate}, policy {policy:?}: every sample must be finite"
            );
        }
    }
}

// ---- The acquisition ---------------------------------------------------------

/// Wander values, every pair well beyond the re-verification agreement band
/// (30 ms = 480 samples at 16 kHz), cycling so no two consecutive confirmations
/// can ever agree: 40 to 240 ms.
const WANDER: [usize; 6] = [640, 1920, 3200, 1280, 2560, 3840];

/// The standing delay of the keep-band case.
const KEEP_BULK: usize = 1200;

/// A step smaller than the keep band (8 ms is 128 samples at 16 kHz).
const KEEP_STEP: usize = 60;

/// A window fed reference backs completely.
fn full_support() -> WindowSupport {
    WindowSupport {
        missing_head: 0,
        missing_tail: 0,
    }
}

/// The known sparse echo path, taps in samples relative to the path onset.
const ECHO_IR: [(usize, f32); 4] = [(0, 0.5), (80, -0.25), (240, 0.12), (410, -0.06)];

const ECHO_GAIN: f32 = 0.5;

const NOISE_FLOOR: f32 = 0.001;

/// The alignment offset the engine must find, in ENGINE terms.
///
/// The engine anchors the near-end stream at the reference frontier, and the
/// standard cadence feeds one block of reference before the first block of
/// capture, so near-end sample `n` sits at far-absolute `TURN + n`. The
/// offset that puts the echo path's onset under the filter's first tap is
/// therefore the synthesized bulk delay plus that lead. Getting this wrong
/// is the easiest way to mis-score an otherwise correct acquisition, so it
/// is derived here once and used everywhere.
fn onset(bulk: usize) -> usize {
    bulk + TURN + ECHO_IR[0].0
}

/// A speech-shaped far-end signal: broadband noise under a syllabic
/// amplitude envelope, with segment lengths and levels both drawn from the
/// generator so no period can manufacture a correlation peak of its own.
fn speech_like(len: usize, carrier_seed: u64, shape_seed: u64) -> Vec<f32> {
    let mut carrier = Lcg(carrier_seed);
    let mut shape = Lcg(shape_seed);
    let mut signal = Vec::with_capacity(len);
    let mut level = 0.0_f32;
    let mut remaining = 0_usize;
    while signal.len() < len {
        if remaining == 0 {
            remaining = 400 + (shape.next_unit() * 2400.0) as usize;
            level = if shape.next_unit() < 0.28 {
                0.0
            } else {
                0.15 + 0.85 * shape.next_unit()
            };
        }
        signal.push(level * carrier.next_f32());
        remaining -= 1;
    }
    signal
}

/// A far-end single-talk pair whose bulk delay follows `bulk_at(i)`: the
/// echo path onset for mic sample `i` sits `bulk_at(i)` samples behind it.
fn moving_pair(len: usize, bulk_at: impl Fn(usize) -> usize) -> (Vec<f32>, Vec<f32>) {
    let far = speech_like(len, 0x1234_5678, 0x00C0_FFEE);
    let mut floor = Lcg(0x0F10_0F10);
    let mic: Vec<f32> = (0..len)
        .map(|i| {
            let bulk = bulk_at(i);
            let mut echo = 0.0_f32;
            for &(tap, coeff) in &ECHO_IR {
                let lag = bulk + tap;
                if i >= lag {
                    echo += coeff * far[i - lag];
                }
            }
            ECHO_GAIN * echo + NOISE_FLOOR * floor.next_f32()
        })
        .collect();
    (far, mic)
}

/// A far-end single-talk pair with a fixed bulk delay.
fn delayed_pair(len: usize, bulk: usize) -> (Vec<f32>, Vec<f32>) {
    moving_pair(len, |_| bulk)
}

/// Runs the engine over a pair at the standard cadence and reports the final
/// metrics plus the near-end sample at which a lock was promoted.
fn run(config: AecConfig, far: &[f32], near: &[f32]) -> (AecMetrics, Option<usize>) {
    let mut aec = Aec::new(config).expect("configuration is valid");
    let mut out = Vec::with_capacity(near.len() + TURN);
    let mut far_chunks = far.chunks(TURN);
    let mut locked_at = None;
    let mut processed = 0usize;
    for near_chunk in near.chunks(TURN) {
        if let Some(far_chunk) = far_chunks.next() {
            aec.feed_reference(far_chunk);
        }
        aec.process(near_chunk, &mut out).expect("process succeeds");
        processed += near_chunk.len();
        if locked_at.is_none() && aec.metrics().delay_samples.is_some() {
            locked_at = Some(processed);
        }
    }
    aec.flush(&mut out).expect("flush succeeds");
    (aec.metrics(), locked_at)
}

fn estimator_config() -> AecConfig {
    configured(|config| {
        config.sample_rate = RATE;
    })
}

/// What one run of [`drive_reverify_spin`] observed.
struct SpinStats {
    /// Regions the re-verification refused (`coarse_regions_rejected`).
    rejects: u32,
    /// The derived stand-down flag (`coarse_last_resort_exhausted`).
    exhausted: bool,
    /// Coarse re-arms charged to the never-lock give-up back-off.
    give_up_rearms: u32,
    /// The final adopted alignment, if the stream ever locked.
    locked: Option<usize>,
    /// Per-eighth of the run: (first frame, last frame, active fraction,
    /// rejects so far), for reading duty over time.
    windows: Vec<(usize, usize, f64, u32)>,
}

/// Drives a [`DelayAcquirer`] directly with a wandering-region stream and
/// measures the coarse-scan duty and the re-verification counters over time.
///
/// The stream is a shared syllabic envelope replayed into both stages: the
/// far side carries the envelope, the near side carries the same envelope
/// delayed by the current wander value, so the coarse magnitude-envelope
/// correlation finds a clear region at that delay. The delay is stepped to a
/// fresh, well-separated value every time the coarse scan re-arms, so each
/// re-verification finds the region somewhere new and refuses it: the
/// confident-but-wandering shallow regions the module doc names, made
/// deterministic. The fine stage is fed a silent far window on purpose, the
/// stand-in for a stream whose sample-accurate path the fine estimator
/// cannot find (a nonlinear or past-window echo), so the last-resort coarse
/// path is the only promotion route and the re-verification loop is what
/// governs the scan's duty.
///
/// `hold_after` models a stream that wanders for a while and then SETTLES:
/// once that many regions have been refused the delay stops stepping, so the
/// next re-armed scan re-confirms the same region, the re-verification agrees,
/// and the last resort adopts it. It is the converging acquirer against which
/// the budget must not fire prematurely; [`None`] never settles.
fn drive_reverify_spin(sample_budget: usize, hold_after: Option<u32>) -> SpinStats {
    let mut acq = DelayAcquirer::new(RATE, 250, 1000);

    // A deterministic syllabic envelope, rich enough that the coarse peak is
    // a clear winner. Sized a block past the sample budget so the delayed
    // read never runs off the end.
    let env_len = sample_budget + 2 * TURN;
    let mut shape = Lcg(0x00C0_FFEE);
    let mut env = vec![0.0f32; env_len];
    let mut i = 0usize;
    while i < env_len {
        let seg = 300 + (shape.next_unit() * 1500.0) as usize;
        let level = if shape.next_unit() < 0.12 {
            0.05
        } else {
            0.2 + 0.8 * shape.next_unit()
        };
        for _ in 0..seg {
            if i < env_len {
                env[i] = level;
                i += 1;
            }
        }
    }

    let mut wi = 0usize;
    let mut d = WANDER[wi];
    let mut far_frontier = 0usize;
    let mut near_abs = 0u64;
    let mut prev_coarse_frames = 0u32;

    let mut fine_frames = 0usize;
    let mut windows: Vec<(usize, usize, f64, u32)> = Vec::new();
    let window_span = (sample_budget / 8).max(1) as u64;
    let mut next_window_at = window_span;
    let mut win_start = 0usize;
    let mut win_active = 0usize;

    while near_abs < sample_budget as u64 {
        // One block of far, then one block of near, near lagging by a block.
        let far_block: Vec<f32> = (far_frontier..far_frontier + TURN)
            .map(|m| env[m])
            .collect();
        let natives = acq.push_far(&samples(&far_block));
        let levels = block_levels(&natives, acq.coarse.bin_samples());
        acq.bank_far(&levels);
        far_frontier += TURN;

        acq.begin_block(near_abs);
        for _ in 0..TURN {
            let a = near_abs as usize;
            let level = if a >= d { env[a - d] } else { 0.0 };
            let pushed = acq.push_near(sample(level));
            if pushed.coarse {
                let score = score_coarse(&acq.coarse);
                acq.score_coarse(score);
            }
            let complete = pushed.fine;
            near_abs += 1;
            if !complete {
                if near_abs >= next_window_at {
                    let span = fine_frames - win_start;
                    windows.push((
                        win_start,
                        fine_frames,
                        if span == 0 {
                            0.0
                        } else {
                            win_active as f64 / span as f64
                        },
                        acq.estimate().coarse_regions_rejected,
                    ));
                    win_start = fine_frames;
                    win_active = 0;
                    next_window_at += window_span;
                }
                continue;
            }
            let near_energy = frame_energy(&acq.fine.near_frame);
            acq.observe(full_support(), near_energy, measure(0.0), &unscanned());
            let est = acq.estimate();

            fine_frames += 1;
            if acq.coarse_active() {
                win_active += 1;
            }

            // A coarse frame count that dropped is a re-arm: step the wander
            // so the next confirmation lands somewhere new, unless the stream
            // has settled (held after enough refusals), in which case the
            // delay stays put so the region reproduces and the last resort
            // adopts it.
            let settled = hold_after.is_some_and(|k| est.coarse_regions_rejected >= k);
            if est.coarse_frames < prev_coarse_frames && !settled {
                wi = (wi + 1) % WANDER.len();
                d = WANDER[wi];
            }
            prev_coarse_frames = est.coarse_frames;
            if est.delay_samples.is_some() {
                // The stream locked: report it and stop.
                return finish_spin_stats(&acq, windows);
            }

            if near_abs >= next_window_at {
                let span = fine_frames - win_start;
                windows.push((
                    win_start,
                    fine_frames,
                    if span == 0 {
                        0.0
                    } else {
                        win_active as f64 / span as f64
                    },
                    est.coarse_regions_rejected,
                ));
                win_start = fine_frames;
                win_active = 0;
                next_window_at += window_span;
            }
        }
    }

    finish_spin_stats(&acq, windows)
}

/// Snapshots a [`SpinStats`] from the acquirer's current estimate.
fn finish_spin_stats(acq: &DelayAcquirer, windows: Vec<(usize, usize, f64, u32)>) -> SpinStats {
    let est = acq.estimate();
    SpinStats {
        rejects: est.coarse_regions_rejected,
        exhausted: est.coarse_last_resort_exhausted,
        give_up_rearms: est.coarse_rearms,
        locked: est.delay_samples,
        windows,
    }
}

/// Asserts an alignment is causally safe against a known onset: at or
/// before it, and no more than a filter tail early.
fn assert_causally_safe(delay: usize, onset: usize, context: &str) {
    let tail = (AecConfig::default().tail_ms as usize * RATE as usize) / 1000;
    assert!(
        delay <= onset,
        "{context}: alignment {delay} is later than the path onset {onset}"
    );
    assert!(
        onset - delay < tail,
        "{context}: alignment {delay} is more than a tail early of onset {onset}"
    );
}

/// A peak comfortably inside the fine range, so nothing under test is
/// refused for sitting on an edge.
fn acquirer_span_midpoint() -> usize {
    (RATE as usize * 250) / 1000 / 2
}

/// A delay far outside the fine window, which the fine search alone cannot
/// see, is acquired through the coarse region.
///
/// 400 ms is past the 250 ms fine window and inside the 1000 ms ceiling.
#[test]
fn acquisition_reaches_a_delay_beyond_the_fine_window() {
    let bulk = 6400; // 400 ms at 16 kHz.
    let (far, near) = delayed_pair(160_000, bulk);
    let (metrics, locked_at) = run(estimator_config(), &far, &near);

    let delay = metrics
        .delay_samples
        .expect("a 400 ms delay must be acquired through the coarse region");
    assert_causally_safe(delay, onset(bulk), "coverage acquisition");
    assert!(metrics.delay.relocated, "the fine search must have moved");
    assert!(
        matches!(metrics.delay.status, DelayStatus::Locked(_)),
        "status must be Locked, got {:?}",
        metrics.delay.status
    );
    let locked_at = locked_at.expect("a lock implies a lock sample");
    assert!(
        locked_at <= 5 * RATE as usize,
        "acquisition took {locked_at} samples, beyond the 5 s budget"
    );
}

/// A delay past the ceiling is reported as a coverage failure, not
/// mistaken for a shallow one. Specifically, neither boundary signature
/// appears: no lock at 0 and none at the deep end of the fine window.
#[test]
fn a_delay_beyond_the_ceiling_is_reported_not_faked() {
    let bulk = 24_000; // 1500 ms at 16 kHz, past the 1000 ms ceiling.
    let (far, near) = delayed_pair(200_000, bulk);
    let (metrics, _) = run(estimator_config(), &far, &near);

    if let Some(delay) = metrics.delay_samples {
        // Whatever it did, it must not have manufactured either edge value.
        let deep = metrics.delay.fine_search_end_samples;
        assert!(
            delay > (RATE as usize * FINE_EDGE_GUARD_MS as usize) / 1000,
            "locked at {delay}, the shallow-edge artefact"
        );
        assert!(
            delay + (RATE as usize * FINE_EDGE_GUARD_MS as usize) / 1000 < deep,
            "locked at {delay}, pinned against the deep search edge {deep}"
        );
    }
}

/// The narrowed-ceiling sharp edge, guarded: a delay past a DELIBERATELY
/// narrowed ceiling must be refused, not aliased onto a spurious shallow
/// region by the last-resort path. The re-verification requirement is what
/// refuses it.
#[test]
fn a_narrowed_ceiling_refuses_rather_than_adopting_an_alias() {
    let bulk = 7200; // 450 ms at 16 kHz, past a 250 ms ceiling.
    let (far, near) = delayed_pair(240_000, bulk);
    let config = configured(|config| {
        config.sample_rate = RATE;
        config.max_search_delay_ms = 250;
    });
    let (metrics, _) = run(config, &far, &near);

    assert_eq!(
        metrics.delay_samples, None,
        "a past-ceiling delay must be refused at a narrowed ceiling, \
         not adopted from an aliased region (rejected {} regions)",
        metrics.delay.coarse_regions_rejected
    );
}

/// A stream that keeps confirming confident-but-wandering shallow regions
/// that never reproduce must not pin the coarse scan at full duty re-arming
/// forever. The re-verification refuses each region, and once the rejection
/// budget is spent the last resort stands down: the scan goes quiescent
/// instead of re-arming again, and nothing is ever promoted.
///
/// Both assertions below fail on an unbounded loop and hold on the bounded
/// one. The never-lock give-up back-off must not engage at all: it governs a
/// scan that gave up WITHOUT finding a region, a state this stream never
/// enters, so a nonzero give-up re-arm count here would be the two paths
/// fighting.
#[test]
fn the_reverification_loop_stands_down_after_the_reject_budget() {
    let stats = drive_reverify_spin(40 * RATE as usize, None); // 40 s.

    assert_eq!(
        stats.rejects, MAX_REVERIFY_REJECTS,
        "the wandering stream must reject exactly the budget and then stop, \
         got {} rejections",
        stats.rejects
    );
    assert!(
        stats.exhausted,
        "reaching the reject budget must surface the derived stand-down flag \
         coarse_last_resort_exhausted"
    );
    assert_eq!(
        stats.locked, None,
        "a stream of wander that never reproduces a region must never be \
         promoted, got {:?}",
        stats.locked
    );
    assert_eq!(
        stats.give_up_rearms, 0,
        "the never-lock give-up back-off must not engage on a scan that keeps \
         finding regions: {} give-up re-arms means the two paths are fighting",
        stats.give_up_rearms
    );
    // The duty drops from pinned-high to quiescent once the budget is spent:
    // the spin is not merely counted out, the coarse scan actually stops
    // working. Read from the run's own windows, first versus last.
    let first = stats.windows.first().expect("at least one window");
    let last = stats.windows.last().expect("at least one window");
    assert!(
        first.2 > 0.8,
        "the coarse duty must start pinned high (the spin), got {:.2}",
        first.2
    );
    assert!(
        last.2 < 0.1,
        "the coarse duty must fall to quiescent after the budget is spent, \
         got {:.2} (a new spin, not a stand-down)",
        last.2
    );
}

/// The budget must not fire on a stream that genuinely takes a while to lock.
/// An acquirer that wanders through several refusals and then SETTLES, so its
/// region reproduces and the last resort adopts it, still locks: the budget
/// sits above the refusals this converging stream spends before it settles.
/// Only a stream that never converges is cut off.
#[test]
fn a_slow_converging_acquirer_still_locks_under_the_reject_budget() {
    // Settle only after seven refusals: one short of the budget, the worst
    // case that must still lock.
    let stats = drive_reverify_spin(40 * RATE as usize, Some(MAX_REVERIFY_REJECTS - 1));

    assert!(
        stats.locked.is_some(),
        "a converging acquirer that settles within the budget must still \
         lock, got no lock after {} rejections",
        stats.rejects
    );
    assert!(
        stats.rejects < MAX_REVERIFY_REJECTS,
        "the converging stream must lock before spending the budget, \
         got {} rejections",
        stats.rejects
    );
    assert_eq!(
        stats.give_up_rearms, 0,
        "the give-up back-off must not engage while the scan keeps finding \
         regions, got {}",
        stats.give_up_rearms
    );
}

/// The control: a delay well inside the fine window still acquires, quickly,
/// on local evidence, is not disturbed by the coarse stage, and then holds:
/// a static delay produces no tracking moves and no reacquisitions.
#[test]
fn a_short_delay_still_acquires_on_local_evidence_and_holds() {
    let bulk = 1600; // 100 ms at 16 kHz, comfortably inside the window.
    let (far, near) = delayed_pair(160_000, bulk);
    let (metrics, locked_at) = run(estimator_config(), &far, &near);

    let delay = metrics
        .delay_samples
        .expect("an in-window delay must still be acquired");
    assert!(delay <= onset(bulk), "alignment {delay} is late");
    assert!(onset(bulk) - delay < 800, "alignment {delay} is far early");
    let locked_at = locked_at.expect("a lock implies a lock sample");
    assert!(
        locked_at <= 2 * RATE as usize,
        "an in-window delay took {locked_at} samples to acquire"
    );
    assert_eq!(
        metrics.delay.tracking_moves, 0,
        "a static delay must not be chased"
    );
    assert_eq!(
        metrics.delay.reacquisitions, 0,
        "a good lock must never reacquire"
    );
}

/// Tracking follows a step change that stays inside the local window,
/// without any reacquisition: the with-movement case in miniature.
#[test]
fn tracking_follows_an_in_window_delay_step() {
    let first = 1600; // 100 ms.
    let second = 2880; // 180 ms, an 80 ms step, inside the local window.
    let step_at = 160_000; // 10 s in.
    let (far, near) = moving_pair(320_000, |i| if i < step_at { first } else { second });
    let (metrics, _) = run(estimator_config(), &far, &near);

    let delay = metrics
        .delay_samples
        .expect("the stream must stay locked across an in-window step");
    assert_causally_safe(delay, onset(second), "post-step alignment");
    assert!(
        metrics.delay.tracking_moves >= 1,
        "the step must be followed by the tracker, not ignored"
    );
    assert_eq!(
        metrics.delay.reacquisitions, 0,
        "an in-window step must be tracked locally, not reacquired \
         (last trigger {:?})",
        metrics.delay.last_reacquire_trigger
    );
}

/// A delay jump that leaves the local window entirely fires a
/// reacquisition trigger, and the global search then locks the new delay.
#[test]
fn an_out_of_window_jump_reacquires_and_relocks() {
    let first = 1600; // 100 ms.
    let second = 9600; // 600 ms: far outside the local tracking window.
    let step_at = 160_000; // 10 s in.
    let (far, near) = moving_pair(480_000, |i| if i < step_at { first } else { second });
    let (metrics, _) = run(estimator_config(), &far, &near);

    assert!(
        metrics.delay.reacquisitions >= 1,
        "a jump beyond local reach must fire a reacquisition trigger"
    );
    assert!(
        metrics.delay.last_reacquire_trigger.is_some(),
        "the trigger must be reported"
    );
    let delay = metrics
        .delay_samples
        .expect("the stream must re-lock after the jump");
    assert_causally_safe(delay, onset(second), "post-jump alignment");
    assert!(
        matches!(metrics.delay.status, DelayStatus::Locked(_)),
        "the stream must end re-locked, got {:?}",
        metrics.delay.status
    );
}

/// A long span with no far-end energy is not evidence against the lock:
/// unscored frames advance no tracking cycle, so the lock is held straight
/// through and no trigger fires.
#[test]
fn a_long_near_end_only_span_holds_the_lock() {
    let bulk = 1600;
    let len = 400_000; // 25 s.
    let gap = 128_000..288_000; // far silent from 8 s to 18 s.
    let mut far = speech_like(len, 0x1234_5678, 0x00C0_FFEE);
    for i in gap.clone() {
        far[i] = 0.0;
    }
    let mut talker = Lcg(0x7E57_7A1E);
    let mut shape = Lcg(0x0B0B_0B0B);
    let mut floor = Lcg(0x0F10_0F10);
    let mut level = 0.0_f32;
    let mut remaining = 0usize;
    let near: Vec<f32> = (0..len)
        .map(|i| {
            let mut echo = 0.0_f32;
            for &(tap, coeff) in &ECHO_IR {
                let lag = bulk + tap;
                if i >= lag {
                    echo += coeff * far[i - lag];
                }
            }
            if remaining == 0 {
                remaining = 400 + (shape.next_unit() * 2400.0) as usize;
                level = if shape.next_unit() < 0.4 {
                    0.0
                } else {
                    0.1 + 0.3 * shape.next_unit()
                };
            }
            remaining -= 1;
            // The near end keeps talking through the far-end gap.
            let voice = if gap.contains(&i) {
                level * talker.next_f32()
            } else {
                0.0
            };
            ECHO_GAIN * echo + voice + NOISE_FLOOR * floor.next_f32()
        })
        .collect();

    let (metrics, locked_at) = run(estimator_config(), &far, &near);
    let delay = metrics
        .delay_samples
        .expect("the stream must lock before the gap");
    let locked_at = locked_at.expect("a lock implies a lock sample");
    assert!(
        locked_at < 128_000,
        "the fixture assumes a pre-gap lock, got {locked_at}"
    );
    assert_causally_safe(delay, onset(bulk), "post-gap alignment");
    assert_eq!(
        metrics.delay.reacquisitions, 0,
        "a near-end-only span must not fire a trigger (last {:?})",
        metrics.delay.last_reacquire_trigger
    );
}

/// Double-talk from the very start does not defeat acquisition: the far
/// end is still correlated with its echo underneath the near talker.
#[test]
fn double_talk_during_acquisition_still_locks() {
    let bulk = 6400; // 400 ms: the coverage path, under double-talk.
    let (far, echo_only) = delayed_pair(240_000, bulk);
    let talker = speech_like(240_000, 0x7E57_7A1E, 0x0B0B_0B0B);
    let near: Vec<f32> = echo_only
        .iter()
        .zip(talker.iter())
        .map(|(&e, &t)| e + 0.35 * t)
        .collect();
    let (metrics, _) = run(estimator_config(), &far, &near);

    let delay = metrics
        .delay_samples
        .expect("double-talk must not defeat acquisition");
    assert_causally_safe(delay, onset(bulk), "double-talk acquisition");
    assert_eq!(
        metrics.delay.reacquisitions, 0,
        "a good lock under double-talk must hold"
    );
}

/// A hint constructs no search at all, so neither stage can run, and the
/// reported status names the hint as the source.
#[test]
fn a_hint_runs_no_search_of_either_stage() {
    let (far, near) = delayed_pair(48_000, 1600);
    let config = configured(|config| {
        config.sample_rate = RATE;
        config.delay_hint_ms = Some(100);
    });
    let (metrics, _) = run(config, &far, &near);

    assert_eq!(
        metrics.delay.status,
        DelayStatus::Locked(DelayLockSource::Hint)
    );
    assert_eq!(metrics.delay.coarse_frames, 0);
    assert_eq!(metrics.delay.fine_frames, 0);
    assert!(!metrics.delay.relocated);
    assert_eq!(metrics.delay.tracking_moves, 0);
    assert_eq!(metrics.delay.reacquisitions, 0);
}

/// An uncorrelated pair must not be talked into a lock by either stage.
#[test]
fn an_uncorrelated_pair_is_declined_by_both_stages() {
    let (far, _) = delayed_pair(160_000, 0);
    let mut other = Lcg(0xDEAD_BEEF);
    let near: Vec<f32> = (0..160_000).map(|_| 0.1 * other.next_f32()).collect();
    let (metrics, _) = run(estimator_config(), &far, &near);

    assert_eq!(
        metrics.delay_samples, None,
        "locked onto an uncorrelated pair"
    );
    assert_eq!(metrics.delay.status, DelayStatus::Searching);
    assert!(!metrics.delay.relocated);
}

/// The configuration surface: a ceiling below the fine window is refused,
/// and one above the supported bound is refused, both before any audio.
#[test]
fn an_out_of_range_search_ceiling_is_rejected() {
    let too_small = configured(|config| {
        config.max_echo_delay_ms = 250;
        config.max_search_delay_ms = 100;
    });
    assert!(matches!(
        Aec::new(too_small),
        Err(AecError::SearchDelayOutOfRange {
            requested_ms: 100,
            fine_window_ms: 250
        })
    ));
    let too_large = configured(|config| {
        config.max_search_delay_ms = 2001;
    });
    assert!(matches!(
        Aec::new(too_large),
        Err(AecError::SearchDelayOutOfRange { .. })
    ));
}

/// Reset returns the acquisition to its just-constructed state, so the next
/// stream searches afresh rather than inheriting a stale region.
#[test]
fn reset_clears_the_acquisition() {
    let (far, near) = delayed_pair(160_000, 6400);
    let mut aec = Aec::new(estimator_config()).expect("configuration is valid");
    let mut out = Vec::new();
    let mut far_chunks = far.chunks(TURN);
    for near_chunk in near.chunks(TURN) {
        if let Some(far_chunk) = far_chunks.next() {
            aec.feed_reference(far_chunk);
        }
        aec.process(near_chunk, &mut out).expect("process succeeds");
    }
    assert!(aec.metrics().delay_samples.is_some());

    aec.reset();
    let after = aec.metrics();
    assert_eq!(after.delay_samples, None);
    assert_eq!(after.delay.status, DelayStatus::Searching);
    assert_eq!(after.delay.coarse_frames, 0);
    assert_eq!(after.delay.fine_frames, 0);
    assert_eq!(after.delay.coarse_region_samples, None);
    assert!(!after.delay.relocated);
    assert_eq!(after.delay.tracking_moves, 0);
    assert_eq!(after.delay.reacquisitions, 0);
    assert_eq!(after.delay.fine_scans, 0);
    assert_eq!(after.acquisition_parked, 0);
}

/// Two identical runs produce identical acquisitions, sample for sample,
/// tracking counters included.
#[test]
fn acquisition_is_deterministic_across_runs() {
    let (far, near) = delayed_pair(160_000, 6400);
    let first = run(estimator_config(), &far, &near);
    let second = run(estimator_config(), &far, &near);
    assert_eq!(first.0.delay_samples, second.0.delay_samples);
    assert_eq!(first.0.delay, second.0.delay);
    assert_eq!(first.1, second.1);
}

/// The framing is cut on absolute sample count, so the acquisition does not
/// depend on how the caller chunks the stream.
#[test]
fn acquisition_is_invariant_to_caller_chunking() {
    let (far, near) = delayed_pair(160_000, 6400);
    let (reference, _) = run(estimator_config(), &far, &near);

    let mut aec = Aec::new(estimator_config()).expect("configuration is valid");
    let mut out = Vec::new();
    // A deliberately ragged cadence over the same audio. The reference is
    // still fed one TURN ahead of the capture, so the engine-domain delay is
    // the same as under the uniform cadence and the two runs are comparable;
    // only where the caller's chunk boundaries fall differs.
    let sizes = [37usize, 512, 1, 913, 256, 128];
    let mut cursor = 0usize;
    let mut fed = 0usize;
    let mut step = 0usize;
    while cursor < near.len() {
        let take = sizes[step % sizes.len()].min(near.len() - cursor);
        // Keep the reference exactly one TURN ahead of the capture, as the
        // uniform run does, so both runs anchor at the same offset.
        let feed_to = (cursor + TURN).min(far.len());
        if feed_to > fed {
            aec.feed_reference(&far[fed..feed_to]);
            fed = feed_to;
        }
        aec.process(&near[cursor..cursor + take], &mut out)
            .expect("process succeeds");
        cursor += take;
        step += 1;
    }
    aec.flush(&mut out).expect("flush succeeds");
    assert_eq!(aec.metrics().delay_samples, reference.delay_samples);
}

/// The contradiction metric must read zero on a stream that never
/// contradicts itself, however long it runs.
///
/// A held lock re-confirms its alignment every cycle, and re-confirmation
/// clears the run, so a healthy matched stream reports zero for both the
/// live run and the high-water mark. A metric that drifts upward on healthy
/// audio would report every stream as suspect and be worthless as a signal.
#[test]
fn a_healthy_stream_reports_no_estimator_contradiction() {
    let (far, near) = delayed_pair(RATE as usize * 12, 1200);
    let (metrics, locked_at) = run(estimator_config(), &far, &near);

    assert!(locked_at.is_some(), "the clip must lock");
    assert_eq!(
        metrics.delay.tracking_contradiction_run, 0,
        "a re-confirmed lock leaves no standing contradiction"
    );
    assert_eq!(
        metrics.delay.tracking_contradiction_run_max, 0,
        "and none was ever banked"
    );
}

/// An estimator that offers the alignment incompatible answers must be
/// visible at RUNTIME, not only from a test accessor.
///
/// A contradiction that cannot escalate is otherwise silent. The high-water
/// mark is what survives the re-confirmation that clears the live run, so an
/// episode that climbed and then subsided is still reportable afterwards.
#[test]
fn a_contradicting_estimator_is_reported_through_the_public_estimate() {
    let mut acquirer = DelayAcquirer::new(RATE, 250, 1000);
    let per_ms = |ms: usize| (ms * RATE as usize) / 1000;
    acquirer.promote(per_ms(200), DelayLockSource::LocalEvidence);
    assert_eq!(acquirer.estimate().tracking_contradiction_run, 0);

    // Two candidates far enough apart to be incompatible, both clear of the
    // range edges so nothing is refused for being edge-pinned. Alternating
    // them is the estimator disagreeing with ITSELF rather than with the
    // alignment, which is exactly what the run counts.
    let candidate = |delay: usize| FineObservation {
        scored: true,
        candidate: Some(FineLock {
            delay,
            peak_at: acquirer_span_midpoint(),
            ratio: measure(30.0),
        }),
    };
    for cycle in 0..3 {
        let delay = if cycle % 2 == 0 {
            per_ms(160)
        } else {
            per_ms(120)
        };
        for _ in 0..TRACK_CYCLE_FRAMES {
            acquirer.observe_tracking(candidate(delay));
        }
    }

    let estimate = acquirer.estimate();
    assert!(
        estimate.tracking_contradiction_run > 0,
        "the standing contradiction run must be visible at runtime"
    );
    assert!(
        estimate.tracking_contradiction_run_max >= estimate.tracking_contradiction_run,
        "the high-water mark covers the standing run"
    );

    // The estimator now settles. The live run clears, and the banked one
    // does not: that difference is the whole point of the high-water mark.
    for _ in 0..(TRACK_CYCLE_FRAMES * 2) {
        acquirer.observe_tracking(candidate(per_ms(160)));
    }
    let settled = acquirer.estimate();
    assert_eq!(
        settled.tracking_contradiction_run, 0,
        "settling clears the standing run"
    );
    assert!(
        settled.tracking_contradiction_run_max > 0,
        "but the episode stays reportable after the fact"
    );
}

/// A reacquisition that re-promotes inside the keep band must leave the
/// engine's offset and the acquisition's alignment equal.
///
/// [`DelayEstimate::delay_samples`] is documented as always equal to
/// [`AecMetrics::delay_samples`]. The keep band exists so a spurious
/// trigger does not throw away a converged filter, and it therefore holds
/// the engine's offset across the re-promotion. The acquisition adopts the
/// newly promoted value unconditionally, and every later tracking cycle is
/// measured against THAT value, so if the engine does not adopt it too the
/// two describe different alignments. On a static delay nothing ever moves
/// them back together.
#[test]
fn a_keep_band_re_promotion_leaves_both_alignments_equal() {
    let len = RATE as usize * 12;
    let step_at = len / 2;
    let (far, near) = moving_pair(len, |i| if i < step_at { KEEP_BULK } else { KEEP_BULK + KEEP_STEP });
    let mut aec = Aec::new(estimator_config()).expect("configuration is valid");
    let mut out = Vec::with_capacity(near.len() + TURN);
    let mut far_chunks = far.chunks(TURN);

    let mut forced = false;
    let mut checked_after = false;
    let mut processed = 0usize;
    for near_chunk in near.chunks(TURN) {
        if let Some(far_chunk) = far_chunks.next() {
            aec.feed_reference(far_chunk);
        }
        aec.process(near_chunk, &mut out).expect("process succeeds");
        processed += near_chunk.len();

        let metrics = aec.metrics();
        // Send the settled lock back to the global search once the step has
        // arrived, emulating a spurious trigger at the worst moment: the
        // re-promotion then lands a step away from the standing offset, and
        // a step this small falls inside the keep band.
        if !forced
            && processed > step_at
            && matches!(metrics.delay.status, DelayStatus::Locked(_))
        {
            aec.acquirer_mut()
                .expect("estimator is running")
                .enter_reacquire(ReacquireTrigger::ConfidenceLost);
            forced = true;
            continue;
        }
        // The first frame after the re-promotion is where the two can part.
        if forced && matches!(metrics.delay.status, DelayStatus::Locked(_)) {
            assert_eq!(
                metrics.delay_samples, metrics.delay.delay_samples,
                "the engine's offset and the acquisition's alignment must \
                 describe the same delay after a keep-band re-promotion"
            );
            checked_after = true;
        }
    }
    aec.flush(&mut out).expect("flush succeeds");

    assert!(
        forced,
        "the clip must reach a lock for the test to mean anything"
    );
    assert!(
        checked_after,
        "the clip must re-promote after the forced reacquisition"
    );
}

// ---- The canceller and the estimator on known pairs ---------------------------

/// The known within-tail echo impulse response: sparse early reflections, all
/// inside the 512-tap filter span.
const PAIR_IR: [(usize, f32); 4] = [(40, 0.5), (120, -0.25), (280, 0.12), (450, -0.06)];

/// Filter tail for the scenario pairs: 32 ms is 512 taps at 16 kHz, covering
/// the longest echo-path reflection below with margin while keeping the
/// per-sample reference filter cheap enough for debug-build test runs.
const TAIL_MS: u16 = 32;

/// Scenario length: one second at 16 kHz. NLMS with a 512-tap filter reaches
/// steady state well inside the first half, so the last quarter measures
/// converged behavior.
const SCENARIO_LEN: usize = 16_000;

/// Amplitude of the near-end talker burst in the double-talk pair.
const NEAR_AMPLITUDE: f32 = 0.3;

/// Convolves the far-end signal with a sparse impulse response at a gain:
/// the known echo path behind every golden pair.
fn convolve_echo(far: &[f32], ir: &[(usize, f32)], gain: f32) -> Vec<f32> {
    (0..far.len())
        .map(|i| {
            let mut echo = 0.0_f32;
            for &(delay, coeff) in ir {
                if i >= delay {
                    echo += coeff * far[i - delay];
                }
            }
            gain * echo
        })
        .collect()
}

/// A golden pair: the far-end reference, the microphone signal containing the
/// known echo, and the clean near-end component (zero outside the burst).
struct GoldenPair {
    far: Vec<f32>,
    mic: Vec<f32>,
    near: Vec<f32>,
}

/// Far-end single-talk: broadband far end, echo through the known path, a tiny
/// noise floor, and no near-end talker. The convergence and ERLE fixture.
fn echo_only_pair() -> GoldenPair {
    let mut far_lcg = Lcg::new(0x5EED_FA4E);
    let mut floor_lcg = Lcg::new(0x0F10_0F10);
    let far: Vec<f32> = (0..SCENARIO_LEN).map(|_| far_lcg.next_f32()).collect();
    let echo = convolve_echo(&far, &PAIR_IR, ECHO_GAIN);
    let mic: Vec<f32> = echo
        .iter()
        .map(|&e| e + NOISE_FLOOR * floor_lcg.next_f32())
        .collect();
    let near = vec![0.0; SCENARIO_LEN];
    GoldenPair { far, mic, near }
}

/// Double-talk: the same echo path, with a deterministic near-end talker
/// active through the middle third of the stream.
fn double_talk_pair() -> GoldenPair {
    let base = echo_only_pair();
    let burst = SCENARIO_LEN / 3..2 * SCENARIO_LEN / 3;
    let near: Vec<f32> = (0..SCENARIO_LEN)
        .map(|i| {
            if burst.contains(&i) {
                ((i % 41) as f32 / 20.0 - 1.0) * NEAR_AMPLITUDE
            } else {
                0.0
            }
        })
        .collect();
    let mic: Vec<f32> = base.mic.iter().zip(&near).map(|(&m, &n)| m + n).collect();
    GoldenPair {
        far: base.far,
        mic,
        near,
    }
}

/// The total energy of a block of samples, accumulated in `f64`.
fn total_energy(samples: &[f32]) -> f64 {
    samples.iter().map(|&s| s as f64 * s as f64).sum()
}

/// Echo-return-loss enhancement in decibels of `residual` against `mic`.
fn erle_db(mic: &[f32], residual: &[f32]) -> f64 {
    let residual_energy = total_energy(residual);
    if residual_energy <= 0.0 {
        return f64::INFINITY;
    }
    10.0 * (total_energy(mic) / residual_energy).log10()
}

/// Scale-invariant signal-to-distortion ratio in decibels of `estimate`
/// against the clean `reference`.
fn si_sdr_db(reference: &[f32], estimate: &[f32]) -> f64 {
    let reference_energy = total_energy(reference);
    if reference_energy <= 0.0 {
        return f64::NEG_INFINITY;
    }
    let dot: f64 = reference
        .iter()
        .zip(estimate)
        .map(|(&r, &e)| r as f64 * e as f64)
        .sum();
    let scale = dot / reference_energy;

    let mut target_energy = 0.0_f64;
    let mut noise_energy = 0.0_f64;
    for (&r, &e) in reference.iter().zip(estimate) {
        let target = scale * r as f64;
        let noise = e as f64 - target;
        target_energy += target * target;
        noise_energy += noise * noise;
    }
    if noise_energy <= 0.0 {
        return f64::INFINITY;
    }
    10.0 * (target_energy / noise_energy).log10()
}

/// Asserts two sample vectors are bit-identical, reporting the first
/// mismatching index.
fn assert_bit_exact(got: &[f32], expected: &[f32], context: &str) {
    assert_eq!(
        got.len(),
        expected.len(),
        "golden length changed for {context}"
    );
    for (i, (g, e)) in got.iter().zip(expected).enumerate() {
        assert_eq!(
            g.to_bits(),
            e.to_bits(),
            "golden mismatch at {i} for {context}: got {g:?}, expected {e:?}."
        );
    }
}

/// Drives a whole aligned pair through a fresh Rho instance.
fn run_rho(near: &[f32], far: &[f32], tail_ms: u16) -> (Vec<f32>, RhoCanceller) {
    let mut rho = RhoCanceller::new(RATE, tail_ms);
    let mut out = Vec::new();
    rho.process(near, far, &mut out)
        .expect("rho never fails after construction");
    rho.flush(&mut out).expect("rho flush never fails");
    (out, rho)
}

/// Drives a whole aligned pair through a fresh Tau instance, including the
/// end-of-stream flush, and returns the output alongside the canceller.
fn run_tau(
    near: &[f32],
    far: &[f32],
    tail_ms: u16,
    suppression: Suppression,
) -> (Vec<f32>, Tau) {
    let mut tau = Tau::new(RATE, tail_ms, suppression);
    let mut out = Vec::new();
    tau.process(near, far, &mut out)
        .expect("tau never fails after construction");
    tau.flush(&mut out).expect("tau flush never fails");
    (out, tau)
}

/// Preservation floor for a stream whose microphone holds no echo at all
/// while the reference is genuinely active: the ideal output is the input
/// exactly, and every deviation is invented.
const NO_ECHO_PRESERVATION_FLOOR_DB: f64 = 60.0;

/// The most the talker's level may move, in either direction, while the
/// talker sits inside the establishment window.
const WARMUP_GAIN_BOUND_DB: f64 = 1.0;

/// Floor on the talker-to-introduced-residue ratio inside the establishment
/// window: what the delivered signal holds beyond the talker at its measured
/// gain and some share of the true echo is content the canceller invented.
const WARMUP_INTRODUCED_FLOOR_DB: f64 = 20.0;

/// The bulk delay the estimator fixture places between the far-end reference and
/// its echo: 100 ms at 16 kHz, well inside the default 250 ms search window and
/// far outside the 32 ms filter tail, so only a correct estimate can align it.
const BULK_DELAY: usize = 1_600;

/// Length of the estimator fixture: three seconds, long enough that the
/// estimator locks and the filter then converges against the corrected
/// alignment inside the same stream.
const DELAYED_LEN: usize = 48_000;

/// A far-end reference whose echo arrives a known bulk delay later, on top of
/// the same within-tail impulse response the other fixtures use.
fn delayed_echo_pair() -> GoldenPair {
    let mut far_lcg = Lcg::new(0x0DE1_A400);
    let mut floor_lcg = Lcg::new(0x0F10_0F10);
    let far: Vec<f32> = (0..DELAYED_LEN).map(|_| far_lcg.next_f32()).collect();
    let echo = convolve_echo(&far, &PAIR_IR, ECHO_GAIN);
    let mic: Vec<f32> = (0..DELAYED_LEN)
        .map(|i| {
            let delayed = if i >= BULK_DELAY {
                echo[i - BULK_DELAY]
            } else {
                0.0
            };
            delayed + NOISE_FLOOR * floor_lcg.next_f32()
        })
        .collect();
    GoldenPair {
        far,
        mic,
        near: vec![0.0; DELAYED_LEN],
    }
}

/// Two fresh instances over the same pair must produce bit-identical output:
/// the run-to-run half of the determinism guarantee (the golden vector below
/// pins the cross-platform half).
#[test]
fn rho_is_deterministic_across_runs() {
    let pair = echo_only_pair();
    let (first, _) = run_rho(&pair.mic, &pair.far, TAIL_MS);
    let (second, _) = run_rho(&pair.mic, &pair.far, TAIL_MS);
    assert_bit_exact(&second, &first, "run-to-run determinism");
}

/// The engine pipeline (sanitize, ring, absolute-index alignment with a
/// supplied delay hint) must hand Rho exactly the aligned pair the direct
/// drive uses: the outputs are bit-identical and nothing starves. This is Rho
/// acting as the pipeline validator.
#[test]
fn engine_pipeline_matches_the_direct_reference() {
    let pair = echo_only_pair();
    let (direct, _) = run_rho(&pair.mic, &pair.far, TAIL_MS);

    // 256-sample turns with a 16 ms (256-sample) hint: each near-end read
    // lands exactly one turn behind the reference frontier, so engine
    // alignment reproduces the direct pairing sample for sample.
    let config = configured(|config| {
        config.tail_ms = TAIL_MS;
        config.delay_hint_ms = Some(16);
    });
    let mut aec = Aec::with_internal_reference(config).expect("config is valid");
    let mut out = Vec::new();
    for (far_chunk, mic_chunk) in pair.far.chunks(256).zip(pair.mic.chunks(256)) {
        aec.feed_reference(far_chunk);
        aec.process(mic_chunk, &mut out)
            .expect("the internal reference processes every block");
    }
    aec.flush(&mut out).expect("flush never fails");

    let metrics = aec.metrics();
    assert_eq!(metrics.reference_starved, 0, "no aligned read may starve");
    assert_eq!(metrics.reference_dropped, 0);
    assert_eq!(aec.latency_samples(), 0);
    assert_bit_exact(&out, &direct, "engine pipeline against direct reference");
}

/// A microphone with no echo in it must come through untouched even while
/// the reference is playing.
#[test]
fn tau_leaves_a_no_echo_stream_untouched() {
    // Four seconds: establishment completes within the first half second and
    // the wandering shadow then gets several seconds to try to reach the
    // output.
    let len = 250 * BLOCK;
    let mut far_lcg = Lcg::new(0x00EC_0A11);
    let mut near_lcg = Lcg::new(0x7A1C_E55A);
    let mut floor_lcg = Lcg::new(0x0F10_0F10);
    // The reference plays throughout; none of it reaches the microphone. The
    // talker is independent noise under a syllabic envelope, not the suite's
    // periodic ramp.
    let far: Vec<f32> = (0..len).map(|_| far_lcg.next_f32()).collect();
    let near: Vec<f32> = (0..len)
        .map(|i| {
            let syllable = ((i / 2048) % 3) as f32 / 2.0 + 0.5;
            NEAR_AMPLITUDE * syllable * near_lcg.next_f32() + NOISE_FLOOR * floor_lcg.next_f32()
        })
        .collect();

    let (out, tau) = run_tau(&near, &far, TAIL_MS, Suppression::Conservative);

    assert_eq!(
        tau.transfers(),
        0,
        "the shadow earned {} transfer blocks on a stream with no echo",
        tau.transfers()
    );
    let mut near_energy = 0.0_f64;
    let mut artifact_energy = 0.0_f64;
    for (&n, &o) in near.iter().zip(&out) {
        near_energy += n as f64 * n as f64;
        let d = o as f64 - n as f64;
        artifact_energy += d * d;
    }
    let preservation = if artifact_energy > 0.0 {
        10.0 * (near_energy / artifact_energy).log10()
    } else {
        f64::INFINITY
    };
    println!(
        "no-echo preservation: {preservation:.2} dB, transfers {}",
        tau.transfers()
    );
    assert!(
        preservation >= NO_ECHO_PRESERVATION_FLOOR_DB,
        "no-echo preservation is {preservation:.2} dB, under the floor of \
         {NO_ECHO_PRESERVATION_FLOOR_DB} dB: the canceller altered a stream that held no echo"
    );
}

/// The partition count must follow the configured tail, not the default: a
/// 32 ms tail at 16 kHz is 512 taps, which is two 256-sample partitions, and the
/// default 200 ms tail is 3200 taps, which is thirteen.
#[test]
fn tau_partitions_follow_the_configured_tail() {
    assert_eq!(
        Tau::new(RATE, 32, Suppression::Off).partitions(),
        2
    );
    assert_eq!(
        Tau::new(RATE, 200, Suppression::Off).partitions(),
        13
    );
    assert_eq!(
        Tau::new(RATE, 16, Suppression::Off).partitions(),
        1
    );
}

/// The linear filter on its own, with suppression bypassed.
#[test]
fn tau_linear_filter_reaches_steady_state_erle() {
    let pair = echo_only_pair();
    let (out, tau) = run_tau(&pair.mic, &pair.far, TAIL_MS, Suppression::Off);
    let tail_start = SCENARIO_LEN - SCENARIO_LEN / 4;
    let erle = erle_db(&pair.mic[tail_start..], &out[tail_start..]);
    let metrics = tau.metrics();
    println!(
        "tau linear-only steady-state ERLE: {erle:.2} dB (metric estimate {:.2} dB)",
        float(metrics.erle_db)
    );
    assert!(
        erle >= 40.0,
        "linear-only steady-state ERLE {erle:.2} dB must clear the measured floor of 40 dB"
    );
    assert!(
        (float(metrics.erle_db) as f64 - erle).abs() < 5.0,
        "the smoothed ERLE metric ({:.2} dB) must track the measured ERLE ({erle:.2} dB)",
        float(metrics.erle_db)
    );
    assert_eq!(metrics.divergence_resets, 0);
}

/// Tau against the time-domain reference on the same pair.
///
/// They are different algorithms, one per-sample in the time domain and one
/// block-partitioned in the frequency domain, so this is a tolerance agreement
/// and never a bit comparison.
#[test]
fn tau_agrees_with_the_reference_on_the_golden_pair() {
    let pair = echo_only_pair();
    let tail_start = SCENARIO_LEN - SCENARIO_LEN / 4;
    let (tau_out, _) = run_tau(&pair.mic, &pair.far, TAIL_MS, Suppression::Off);
    let (rho_out, rho) = run_rho(&pair.mic, &pair.far, TAIL_MS);
    assert_eq!(tau_out.len(), rho_out.len());

    let difference: Vec<f32> = tau_out[tail_start..]
        .iter()
        .zip(&rho_out[tail_start..])
        .map(|(a, b)| a - b)
        .collect();
    let worst = difference.iter().map(|d| d.abs()).fold(0.0_f32, f32::max);
    let below_input = erle_db(&pair.mic[tail_start..], &difference);
    let rho_erle = erle_db(&pair.mic[tail_start..], &rho_out[tail_start..]);
    let tau_erle = erle_db(&pair.mic[tail_start..], &tau_out[tail_start..]);
    println!(
        "tau vs reference: worst |diff| {worst:e}, difference sits {below_input:.2} dB \
         below the microphone (reference ERLE {rho_erle:.2} dB, tau ERLE {tau_erle:.2} dB, \
         reference metric {:.2} dB)",
        float(rho.metrics().erle_db)
    );

    assert!(
        below_input >= 45.0,
        "tau and the reference disagree only {below_input:.2} dB below the microphone, \
         under the measured floor of 45 dB"
    );
    // Neither may be quietly worse than the other.
    assert!(
        (tau_erle - rho_erle).abs() < 6.0,
        "tau ERLE {tau_erle:.2} dB and reference ERLE {rho_erle:.2} dB must agree within 6 dB"
    );
}

/// The suppressed path, and the near-end preservation that gates it.
///
/// The suppressor is only allowed to be the default if it buys real echo
/// rejection without eating the near-end talker, so both halves of that bargain
/// are measured here against the linear-only path and floored. This is also
/// where Tau clears the reference: the frequency-domain filter plus its
/// residual stage reaches an ERLE the per-sample time-domain reference does not.
#[test]
fn tau_suppressor_buys_erle_without_eating_the_near_end() {
    let echo = echo_only_pair();
    let tail_start = SCENARIO_LEN - SCENARIO_LEN / 4;

    let (linear, _) = run_tau(&echo.mic, &echo.far, TAIL_MS, Suppression::Off);
    let (suppressed, _) = run_tau(&echo.mic, &echo.far, TAIL_MS, Suppression::Conservative);
    let (reference, _) = run_rho(&echo.mic, &echo.far, TAIL_MS);
    let linear_erle = erle_db(&echo.mic[tail_start..], &linear[tail_start..]);
    let suppressed_erle = erle_db(&echo.mic[tail_start..], &suppressed[tail_start..]);
    let reference_erle = erle_db(&echo.mic[tail_start..], &reference[tail_start..]);
    println!(
        "tau ERLE: linear-only {linear_erle:.2} dB, conservative {suppressed_erle:.2} dB, \
         reference {reference_erle:.2} dB"
    );

    let talk = double_talk_pair();
    let burst = SCENARIO_LEN / 3..2 * SCENARIO_LEN / 3;
    let (linear_talk, _) = run_tau(&talk.mic, &talk.far, TAIL_MS, Suppression::Off);
    let (suppressed_talk, _) = run_tau(&talk.mic, &talk.far, TAIL_MS, Suppression::Conservative);
    let linear_sdr = si_sdr_db(&talk.near[burst.clone()], &linear_talk[burst.clone()]);
    let suppressed_sdr = si_sdr_db(&talk.near[burst.clone()], &suppressed_talk[burst]);
    let cost = linear_sdr - suppressed_sdr;
    println!(
        "tau near-end SI-SDR through double-talk: linear-only {linear_sdr:.2} dB, \
         conservative {suppressed_sdr:.2} dB (cost {cost:.2} dB)"
    );

    assert!(
        suppressed_erle - linear_erle >= 3.0,
        "the suppressor must buy real echo rejection: {linear_erle:.2} dB to {suppressed_erle:.2} dB"
    );
    // The differential preservation gate.
    assert!(
        cost <= 2.0,
        "the suppressor costs {cost:.2} dB of near-end preservation, over the 2 dB bound"
    );
    // And the absolute floor, not just the differential.
    assert!(
        suppressed_sdr >= 30.0,
        "near-end SI-SDR under the suppressor is {suppressed_sdr:.2} dB, \
         under the measured floor of 30 dB"
    );
    // Tau's own higher bar: the frequency-domain filter with its residual stage
    // clears the time-domain reference, which is the payoff for the partitioned
    // design.
    assert!(
        suppressed_erle >= reference_erle + 5.0,
        "tau at {suppressed_erle:.2} dB must clear the reference at {reference_erle:.2} dB"
    );
}

/// The warm-up gate.
#[test]
fn tau_preserves_a_talker_inside_its_own_warmup_window() {
    let len = DTD_ESTABLISH_BLOCKS as usize * BLOCK;
    let onset = len / 3;

    let mut far_lcg = Lcg::new(0x5EED_FA4E);
    let mut floor_lcg = Lcg::new(0x0F10_0F10);
    let far: Vec<f32> = (0..len).map(|_| far_lcg.next_f32()).collect();
    let echo = convolve_echo(&far, &PAIR_IR, ECHO_GAIN);
    let near: Vec<f32> = (0..len)
        .map(|i| {
            if i >= onset {
                ((i % 41) as f32 / 20.0 - 1.0) * NEAR_AMPLITUDE
            } else {
                0.0
            }
        })
        .collect();
    let mic: Vec<f32> = echo
        .iter()
        .zip(&near)
        .map(|(&e, &n)| e + n + NOISE_FLOOR * floor_lcg.next_f32())
        .collect();

    let (out, tau) = run_tau(&mic, &far, TAIL_MS, Suppression::Conservative);

    let dot = |a: &[f32], b: &[f32]| -> f64 {
        a.iter()
            .zip(b)
            .map(|(&x, &y)| x as f64 * y as f64)
            .sum::<f64>()
    };
    let out_span = &out[onset..];
    let near_span = &near[onset..];
    let echo_span = &echo[onset..];

    // The talker's delivered level: the output projected onto the true near
    // end. A canceller that captures or shapes the talker moves this away
    // from unity; deliberate passthrough and clean cancellation both hold it.
    let near_energy = dot(near_span, near_span);
    let gain = dot(out_span, near_span) / near_energy;
    let gain_db = 20.0 * gain.abs().log10();
    assert!(
        gain_db.abs() <= WARMUP_GAIN_BOUND_DB,
        "talker gain inside the establishment window is {gain_db:.2} dB, \
         outside the +-{WARMUP_GAIN_BOUND_DB} dB bound"
    );

    // Whatever the output holds beyond the talker at that gain and the
    // best-fit share of the true echo is content the canceller introduced.
    let after_talker: Vec<f64> = out_span
        .iter()
        .zip(near_span)
        .map(|(&o, &n)| o as f64 - gain * n as f64)
        .collect();
    let echo_energy = dot(echo_span, echo_span);
    let echo_share = after_talker
        .iter()
        .zip(echo_span)
        .map(|(&r, &e)| r * e as f64)
        .sum::<f64>()
        / echo_energy;
    let introduced: f64 = after_talker
        .iter()
        .zip(echo_span)
        .map(|(&r, &e)| {
            let residue = r - echo_share * e as f64;
            residue * residue
        })
        .sum();
    let introduced_db = 10.0 * (near_energy / introduced.max(1e-30)).log10();
    println!(
        "warm-up window ({len} samples, onset {onset}) talker gain {gain_db:.2} dB, \
         echo share {echo_share:.2}, talker-to-introduced {introduced_db:.2} dB"
    );
    assert!(
        introduced_db >= WARMUP_INTRODUCED_FLOOR_DB,
        "talker-to-introduced ratio inside the establishment window is {introduced_db:.2} dB, \
         under the measured floor of {WARMUP_INTRODUCED_FLOOR_DB} dB"
    );
    assert_eq!(tau.metrics().divergence_resets, 0);
}

/// The estimator must find the known delay with no hint supplied, and the
/// canceller must then converge against the alignment it produced.
#[test]
fn the_delay_estimator_locks_onto_the_known_delay() {
    let pair = delayed_echo_pair();
    let dominant_tap = PAIR_IR[0].0;
    let peak = BULK_DELAY + dominant_tap + 256;
    let expected = peak - LOCK_MARGIN_SAMPLES;

    let config = configured(|config| {
        config.tail_ms = TAIL_MS;
        config.delay_hint_ms = None;
    });
    let mut aec = Aec::new(config).expect("config is valid");
    let mut out = Vec::new();
    let mut locked_at = None;
    let mut processed = 0_usize;
    for (far_chunk, mic_chunk) in pair.far.chunks(256).zip(pair.mic.chunks(256)) {
        aec.feed_reference(far_chunk);
        aec.process(mic_chunk, &mut out)
            .expect("the public model processes every block");
        processed += mic_chunk.len();
        if locked_at.is_none() && aec.metrics().delay_samples.is_some() {
            locked_at = Some(processed);
        }
    }
    aec.flush(&mut out).expect("flush never fails");

    let estimate = aec.metrics().delay_samples;
    let locked_at = locked_at.expect("the estimator must lock on a broadband delayed pair");
    println!(
        "delay estimator: locked at {locked_at} samples ({:.0} ms), estimate {estimate:?}, expected {expected}",
        locked_at as f64 * 1000.0 / RATE as f64
    );

    assert_eq!(
        estimate,
        Some(expected),
        "the estimator must find the known delay exactly, less its safety margin"
    );
    assert!(
        estimate.expect("locked") <= peak,
        "the adopted offset must never sit later than the correlation peak"
    );

    assert!(
        locked_at <= RATE as usize,
        "the estimator must lock within a second of audio, took {locked_at} samples"
    );

    let tail_start = DELAYED_LEN - DELAYED_LEN / 4;
    let erle = erle_db(&pair.mic[tail_start..], &out[tail_start..]);
    println!("erle after the estimator locked: {erle:.2} dB");
    assert!(
        erle >= 45.0,
        "ERLE after the lock is {erle:.2} dB, below the measured floor of 45 dB"
    );
}

/// With a hint supplied the estimator does not run at all: the caller's measured
/// value is adopted as-is and reported straight back through the metrics.
#[test]
fn a_supplied_hint_is_adopted_without_estimation() {
    let config = configured(|config| {
        config.tail_ms = TAIL_MS;
        config.delay_hint_ms = Some(16);
    });
    let aec = Aec::new(config).expect("config is valid");
    assert_eq!(aec.metrics().delay_samples, Some(256));
}

/// With no hint and nothing correlated to find, the estimator must decline to
/// lock rather than commit to a spurious peak: an unlocked estimate leaves the
/// caller where they already were, a wrong one breaks a working canceller.
#[test]
fn the_delay_estimator_declines_an_uncorrelated_pair() {
    let mut far_lcg = Lcg::new(0xAAAA_0001);
    let mut mic_lcg = Lcg::new(0x5555_0002);
    let far: Vec<f32> = (0..DELAYED_LEN).map(|_| far_lcg.next_f32()).collect();
    // An independent near-end signal: no echo of the reference anywhere in it.
    let mic: Vec<f32> = (0..DELAYED_LEN).map(|_| 0.3 * mic_lcg.next_f32()).collect();

    let config = configured(|config| {
        config.tail_ms = TAIL_MS;
        config.delay_hint_ms = None;
    });
    let mut aec = Aec::new(config).expect("config is valid");
    let mut out = Vec::new();
    for (far_chunk, mic_chunk) in far.chunks(256).zip(mic.chunks(256)) {
        aec.feed_reference(far_chunk);
        aec.process(mic_chunk, &mut out)
            .expect("processing succeeds");
    }
    println!(
        "uncorrelated pair estimate: {:?}",
        aec.metrics().delay_samples
    );
    assert_eq!(
        aec.metrics().delay_samples,
        None,
        "the estimator must decline an uncorrelated pair rather than commit"
    );
}

// ---- The coarse scan ---------------------------------------------------------

/// The ceiling the scan cases search under.
const SCAN_CEILING_MS: u16 = 250;

/// Feeds the scan reference, its block levels measured as they complete.
fn feed(scan: &mut CoarseScan, reference: &[f32]) {
    let natives = scan.push_far(&samples(reference));
    let levels = block_levels(&natives, scan.bin_samples());
    scan.bank_far(&levels);
}

/// Deterministic zero-mean noise, so every run scores the same frames.
fn noise(count: usize) -> Vec<f32> {
    let mut state = 0x1234_5678_9abc_def0_u64;
    (0..count)
        .map(|_| {
            state = state
                .wrapping_mul(6_364_136_223_846_793_005)
                .wrapping_add(1_442_695_040_888_963_407);
            ((state >> 33) as f32 / (1_u32 << 31) as f32) - 0.5
        })
        .collect()
}

/// The seam clear must be symmetric with what the frame count means.
///
/// Per-lag correlations are averaged across [`COARSE_MIN_FRAMES`] frames
/// before a decision, so up to three scored frames are still banked when a
/// re-anchor arrives. Clearing only the partial near frame leaves those
/// pre-seam frames to average with post-seam ones, across a discontinuity
/// that makes the two incomparable.
#[test]
fn discarding_the_near_frame_at_a_seam_also_clears_the_running_average() {
    let mut scan = CoarseScan::new(RATE, SCAN_CEILING_MS);
    let delay = 2 * scan.decimation;
    let far = noise(64_000);
    feed(&mut scan, &far);

    // Score three frames: one short of a decision, so they are still in the
    // running average when the seam arrives.
    let mut abs = 8_000_u64;
    while scan.accumulated < COARSE_MIN_FRAMES - 1 {
        let near = far[abs as usize - delay];
        if scan.push_near(sample(near), abs) {
            let score = score_coarse(&scan);
            scan.observe(score);
        }
        abs += 1;
        assert!(
            abs < 60_000,
            "the frames must score well inside the history"
        );
    }
    assert!(
        scan.corr_avg.iter().any(|&value| double(value) != 0.0),
        "the banked frames left real evidence in the average"
    );

    scan.discard_near();

    assert_eq!(
        scan.accumulated, 0,
        "the seam clears the banked frame count"
    );
    assert!(
        scan.corr_avg.iter().all(|&value| double(value) == 0.0),
        "pre-seam frames must not average with post-seam ones"
    );
}

/// The decimated write cursor is a `u64`, and the slot it maps to must be
/// reduced BEFORE it is narrowed to a `usize`. Narrowing first truncates on
/// a 32-bit target, so after 2^32 decimated blocks (about 49.7 days of
/// streaming at 1 kHz bins) the mapping jumps instead of advancing by one
/// and the far grid silently misaligns against the near one.
///
/// On a 64-bit host both orders agree and this test passes either way; it
/// bites when the crate is built for a 32-bit target.
#[test]
fn the_envelope_slot_mapping_stays_contiguous_across_a_32_bit_index_wrap() {
    let mut scan = CoarseScan::new(RATE, SCAN_CEILING_MS);
    let len = scan.far_env.capacity() as u64;
    let wrap = 1_u64 << 32;
    assert_eq!(scan.decimation, 16);

    // Park the cursor one block short of the wrap, then write two blocks
    // that straddle it, each at its own level so the slot each landed in is
    // identifiable.
    scan.far_env.next_abs = wrap - 1;
    scan.far_pushed = (wrap - 1) * scan.decimation as u64;
    feed(&mut scan, &[0.25_f32; 16]);
    feed(&mut scan, &[0.75_f32; 16]);

    let before = ((wrap - 1) % len) as usize;
    let after = (wrap % len) as usize;
    assert_ne!(before, after, "the two blocks occupy different slots");
    assert_eq!(float(scan.far_env.buf[before]), 0.25, "the pre-wrap block");
    assert_eq!(
        float(scan.far_env.buf[after]), 0.75,
        "the block after the wrap must land in the NEXT slot, not in the \
         one a truncated index would name"
    );
}

/// The output is index-aligned with the near end over the whole stream: a promotion
/// that lands mid-block delivers the samples the canceller still carries, so no
/// chunking costs a sample and an event keeps its position.
#[test]
fn a_promotion_costs_the_output_no_sample() {
    let (far, mut near) = clean_delayed_pair(16_000 * 8, 1_600);
    // A click well after the lock, in samples no echo explains.
    let click = 16_000 * 7 + 123;
    near[click] += 8.0;
    for (config, chunk) in [
        (AecConfig::default(), 100),
        (preserve_config(), 100),
        (preserve_config(), 333),
    ] {
        let mut aec = Aec::new(config).unwrap();
        let mut out = Vec::new();
        for (far, near) in far.chunks(chunk).zip(near.chunks(chunk)) {
            matched_turn(&mut aec, far, near, &mut out);
        }
        aec.flush(&mut out).unwrap();
        assert!(aec.metrics().delay_samples.is_some(), "the stream must lock");
        assert_eq!(out.len(), near.len());
        let loudest = (16_000 * 6..out.len())
            .max_by(|&a, &b| out[a].abs().total_cmp(&out[b].abs()))
            .unwrap();
        assert_eq!(loudest, click);
    }
}

/// How many samples a declaration reports lost changes the reported total and
/// nothing else, for the rest of the stream.
#[test]
fn a_reported_loss_changes_only_the_total() {
    let (far, near) = clean_delayed_pair(16_000 * 6, 1_600);
    let drive = |lost_samples: Option<u64>| {
        let mut aec = Aec::new(AecConfig::default()).unwrap();
        let mut out = Vec::new();
        for (turn, (far, near)) in far.chunks(160).zip(near.chunks(160)).enumerate() {
            if turn == 300 {
                aec.declare_capture_continuity(CaptureContinuity::Discontinuity { lost_samples });
            }
            matched_turn(&mut aec, far, near, &mut out);
        }
        aec.flush(&mut out).unwrap();
        (out, aec.metrics())
    };
    let (sized, mut sized_metrics) = drive(Some(77));
    let (unsized_out, unsized_metrics) = drive(None);
    assert_bits_identical(&sized, &unsized_out);
    assert_eq!(sized_metrics.capture_samples_lost, 77);
    assert_eq!(unsized_metrics.capture_samples_lost, 0);
    sized_metrics.capture_samples_lost = 0;
    assert_eq!(sized_metrics, unsized_metrics);
}

/// The lifetime counts never fall while the stream is not reset, through seams,
/// promotions and tracking alike.
#[test]
fn the_counts_never_fall() {
    let (far, near) = clean_delayed_pair(16_000 * 8, 1_600);
    let mut aec = Aec::new(AecConfig::default()).unwrap();
    let mut out = Vec::new();
    let counts = |aec: &Aec| {
        let metrics = aec.metrics();
        [
            metrics.reference_starved,
            metrics.acquisition_parked,
            metrics.reference_reanchors,
            metrics.capture_discontinuities,
            metrics.capture_samples_lost,
            metrics.delay.fine_scans,
            u64::from(metrics.delay.fine_frames_skipped),
            u64::from(metrics.delay.tracking_moves),
            u64::from(metrics.delay.reacquisitions),
            u64::from(metrics.delay.coarse_rearms),
            u64::from(metrics.delay.coarse_regions_rejected),
            u64::from(metrics.delay.tracking_contradiction_run_max),
        ]
    };
    let mut before = counts(&aec);
    for (turn, (far, near)) in far.chunks(160).zip(near.chunks(160)).enumerate() {
        if turn % 250 == 249 {
            aec.declare_capture_continuity(CaptureContinuity::Discontinuity {
                lost_samples: Some(5),
            });
        }
        matched_turn(&mut aec, far, near, &mut out);
        let after = counts(&aec);
        assert!(before.iter().zip(&after).all(|(b, a)| b <= a));
        before = after;
    }
    assert_eq!(before[3], 3);
    assert_eq!(before[4], 15);
    assert!(before[5] > 0);
}

/// How the caller chunks the stream changes neither what the canceller appends nor
/// what it reports, and the lengths appended follow from the totals.
#[test]
fn tau_chunks_deliver_what_their_whole_delivers() {
    let (far, near) = clean_delayed_pair(16_000, 40);
    let mut whole = Tau::new(RATE, TAIL_MS, Suppression::Conservative);
    let mut expected = Vec::new();
    whole.process(&near, &far, &mut expected).unwrap();
    assert_eq!(expected.len(), near.len() / BLOCK * BLOCK);
    for chunk in [1, 100, 255, 256, 257, 1000] {
        let mut tau = Tau::new(RATE, TAIL_MS, Suppression::Conservative);
        let mut out = Vec::new();
        let mut handed = 0;
        for (far, near) in far.chunks(chunk).zip(near.chunks(chunk)) {
            tau.process(near, far, &mut out).unwrap();
            handed += near.len();
            assert_eq!(out.len(), handed / BLOCK * BLOCK);
        }
        assert_bits_identical(&out, &expected);
        assert_eq!(tau.metrics(), whole.metrics());
        assert_eq!(tau.transfers(), whole.transfers());
    }
}

/// A reset canceller behaves as a new one, its counts since construction aside, and
/// has nothing left to flush.
#[test]
fn a_reset_tau_behaves_as_a_new_one() {
    let (far, near) = clean_delayed_pair(16_000, 40);
    let mut used = Tau::new(RATE, TAIL_MS, Suppression::Conservative);
    used.process(&far[..9_999], &near[..9_999], &mut Vec::new())
        .unwrap();
    let transfers = used.transfers();
    let resets = used.metrics().divergence_resets;
    used.reset();
    let mut nothing = Vec::new();
    used.flush(&mut nothing).unwrap();
    assert!(nothing.is_empty());
    assert!(!used.metrics().double_talk);
    assert_eq!(used.metrics().divergence_resets, resets);

    let mut fresh = Tau::new(RATE, TAIL_MS, Suppression::Conservative);
    let (mut got, mut expected) = (Vec::new(), Vec::new());
    for (far, near) in far.chunks(333).zip(near.chunks(333)) {
        used.process(near, far, &mut got).unwrap();
        fresh.process(near, far, &mut expected).unwrap();
    }
    used.flush(&mut got).unwrap();
    fresh.flush(&mut expected).unwrap();
    assert_bits_identical(&got, &expected);
    assert_eq!(used.transfers() - transfers, fresh.transfers());
    assert_eq!(
        used.metrics().divergence_resets - resets,
        fresh.metrics().divergence_resets
    );
}

/// A non-finite sample on either side acts exactly as silence in its place.
#[test]
fn tau_takes_a_non_finite_sample_as_silence() {
    let (mut far, mut near) = clean_delayed_pair(8_000, 40);
    let spoil = |far: &mut [f32], near: &mut [f32], with: [f32; 3]| {
        far[700] = with[0];
        near[1_500] = with[1];
        near[2_600] = with[2];
    };
    spoil(&mut far, &mut near, [0.0; 3]);
    let (expected, _) = run_tau(&near, &far, TAIL_MS, Suppression::Conservative);
    spoil(&mut far, &mut near, [f32::NAN, f32::INFINITY, f32::NEG_INFINITY]);
    let (got, _) = run_tau(&near, &far, TAIL_MS, Suppression::Conservative);
    assert_bits_identical(&got, &expected);
}

/// A far end that never plays is a bit-exact passthrough, the flush included.
#[test]
fn tau_passes_a_silent_far_end_through() {
    let (near, _) = clean_delayed_pair(5_000, 40);
    let mut tau = Tau::new(RATE, TAIL_MS, Suppression::Conservative);
    let mut out = Vec::new();
    tau.process(&near, &vec![0.0; near.len()], &mut out).unwrap();
    tau.flush(&mut out).unwrap();
    assert_bits_identical(&out, &near);
}

/// The totals balance at every call under either policy: what is out and what the
/// canceller carries add up to what went in, and a flush delivers the rest.
#[test]
fn the_totals_balance_under_either_policy() {
    let (far, near) = clean_delayed_pair(16_000 * 4, 1_600);
    for config in [AecConfig::default(), preserve_config()] {
        let mut aec = Aec::new(config).unwrap();
        let mut out = Vec::new();
        let mut handed = 0;
        for (far, chunk) in far.chunks(RAGGED_TURN).zip(near.chunks(RAGGED_TURN)) {
            matched_turn(&mut aec, far, chunk, &mut out);
            handed += chunk.len();
            assert!(handed - out.len() < BLOCK);
            if let decibri_aec::engine::OutputBlend::Graded(gate) = &aec.core.output_blend {
                assert_bits_identical(&floats(&gate.pending_near), &near[out.len()..handed]);
            }
        }
        aec.flush(&mut out).unwrap();
        assert_eq!(out.len(), handed);
    }
}

/// How the reference is chunked makes no difference to the engine.
#[test]
fn feeding_in_chunks_is_feeding_at_once() {
    let (far, near) = clean_delayed_pair(16_000 * 3, 1_600);
    let drive = |chunk: usize| {
        let mut aec = Aec::new(AecConfig::default()).unwrap();
        let mut out = Vec::new();
        for (far, near) in far.chunks(1_600).zip(near.chunks(1_600)) {
            for piece in far.chunks(chunk) {
                aec.feed_reference(piece);
            }
            aec.process(near, &mut out).unwrap();
        }
        (out, aec.metrics())
    };
    let (expected, metrics) = drive(1_600);
    for chunk in [1, 7, 160, 999] {
        let (out, got) = drive(chunk);
        assert_bits_identical(&out, &expected);
        assert_eq!(got, metrics);
    }
}
