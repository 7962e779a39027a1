use band::frame_extractor::{FrameExtractor, NextFrameResult, SampleWindow};
use band::input_stream::{AudioInputStream, NextSamplesResult};
use band::resampler::{Resampler, ResamplerError};

/// Input stream generating a sine wave, optionally limited to a number of samples.
#[derive(Debug)]
struct SinInputStream {
    frequency: f32,
    sample_rate: usize,
    max_samples: Option<usize>,
    generated_samples: usize,
    phase: f32,
}

impl SinInputStream {
    fn new(frequency: f32, sample_rate: usize, max_samples: Option<usize>) -> Self {
        Self { frequency, sample_rate, max_samples, generated_samples: 0, phase: 0.0 }
    }

    fn next_sample(&mut self) -> Option<f32> {
        if let Some(max_samples) = self.max_samples {
            if self.generated_samples >= max_samples {
                return None;
            }
        }
        self.phase += std::f32::consts::TAU * self.frequency / self.sample_rate as f32;
        if self.phase >= std::f32::consts::TAU {
            self.phase -= std::f32::consts::TAU;
        }
        self.generated_samples += 1;
        Some(self.phase.sin())
    }
}

impl AudioInputStream<f32> for SinInputStream {
    type InputError = std::convert::Infallible;

    fn delivered(&self) -> band::input_stream::SampleLog<f32> {
        unreachable!("specification only")
    }

    fn answers(&self) -> band::input_stream::AnswerLog<Self::InputError> {
        unreachable!("specification only")
    }

    fn spec_sample_rate(&self) -> usize {
        self.sample_rate
    }

    fn sample_rate(&self) -> usize {
        self.sample_rate
    }

    fn next_samples(&mut self, buffer: &mut [f32]) -> Result<NextSamplesResult, Self::InputError> {
        let mut written = 0;
        for elem in buffer.iter_mut() {
            match self.next_sample() {
                Some(sample) => *elem = sample,
                None => break,
            }
            written += 1;
        }
        if written == 0 && !buffer.is_empty() {
            Ok(NextSamplesResult::EndOfInput)
        } else {
            Ok(NextSamplesResult::Samples(written))
        }
    }
}

const SR: usize = 22050;
const WIN: usize = 2048;
const HOP: usize = 256;

type TestExtractor = FrameExtractor<f32, SinInputStream, SR, WIN, HOP>;

fn extractor(freq: f32, samples: usize) -> TestExtractor {
    let sine = SinInputStream::new(freq, SR, Some(samples));
    FrameExtractor::new(sine).expect("construction")
}

const BINS: usize = WIN / 2 + 1;

fn drain_all<I: AudioInputStream<f32>>(ex: &mut FrameExtractor<f32, I, SR, WIN, HOP>) -> Vec<SampleWindow<f32>> {
    let mut frames = Vec::new();
    loop {
        match ex.next_frame() {
            Ok(NextFrameResult::Frame(f)) => frames.push(f),
            Ok(NextFrameResult::Unavailable) => panic!("finite source reported Unavailable"),
            Ok(NextFrameResult::EndOfInput) => return frames,
            Err(_) => panic!("extractor error"),
        }
    }
}

#[test]
fn input_shorter_than_window_yields_no_frames() {
    let mut ex = extractor(440.0, WIN - 1);
    assert!(drain_all(&mut ex).is_empty());
}

/// Magnitude spectrum of a window: Hann window, real FFT, magnitudes scaled so that a
/// full-scale sine peaks near 1.
fn spectrum(window: &SampleWindow<f32>) -> Vec<f32> {
    let mut planner = realfft::RealFftPlanner::<f32>::new();
    let fft = planner.plan_fft_forward(WIN);
    let mut input: Vec<f32> = window
        .samples
        .iter()
        .enumerate()
        .map(|(i, s)| s * 0.5 * (1.0 - (std::f32::consts::TAU * i as f32 / WIN as f32).cos()))
        .collect();
    let mut output = fft.make_output_vec();
    fft.process(&mut input, &mut output).expect("fft");
    let norm = 2.0 / (WIN as f32 * 0.5);
    assert_eq!(output.len(), BINS);
    output.iter().map(|c| c.norm() * norm).collect()
}

fn peak(bins: &[f32]) -> (usize, f32) {
    bins.iter().enumerate().max_by(|a, b| a.1.total_cmp(b.1)).map(|(i, v)| (i, *v)).unwrap()
}

/// The frequency a bin index represents: bin * SR / WIN.
fn bin_to_hz(bin: usize) -> f32 {
    bin as f32 * SR as f32 / WIN as f32
}

#[test]
fn sine_peaks_in_the_right_bin() {
    /* Expected bin: round(440 * WIN / SR) = round(40.87) = 41 */
    let expected_bin = (440.0 * WIN as f32 / SR as f32).round() as usize;

    let mut ex = extractor(440.0, SR); /* 1 second */
    let frames = drain_all(&mut ex);
    assert!(!frames.is_empty());

    for frame in &frames {
        let (max_bin, max_val) = peak(&spectrum(frame));
        assert!(
            (max_bin as i64 - expected_bin as i64).abs() <= 1,
            "frame {}: peak at bin {max_bin} ({} Hz), expected ~{expected_bin} ({} Hz)",
            frame.index,
            bin_to_hz(max_bin),
            bin_to_hz(expected_bin),
        );
        assert!((0.5..=1.2).contains(&max_val), "frame {}: peak magnitude {max_val}, expected ~1.0", frame.index);
    }
}

#[test]
fn frame_count_matches_hop_arithmetic() {
    let n = SR; /* 1 second */
    let mut ex = extractor(440.0, n);
    let frames = drain_all(&mut ex);

    /* Complete windows in n samples: floor((n - WIN) / HOP) + 1 */
    let expected = (n - WIN) / HOP + 1;
    assert_eq!(frames.len(), expected);
}

#[test]
fn frame_indices_are_contiguous_from_zero() {
    let mut ex = extractor(440.0, SR / 2);
    for (i, frame) in drain_all(&mut ex).iter().enumerate() {
        assert_eq!(frame.index, i);
    }
}

#[test]
fn input_of_exactly_one_window_yields_one_frame() {
    let mut ex = extractor(440.0, WIN);
    assert_eq!(drain_all(&mut ex).len(), 1);
}

#[test]
fn tail_shorter_than_hop_is_dropped() {
    /* WIN + HOP - 1 samples: frame 0 fills, then HOP-1 remain: not
    enough to slide. Exactly one frame; tail dropped, not padded. */
    let mut ex = extractor(440.0, WIN + HOP - 1);
    assert_eq!(drain_all(&mut ex).len(), 1);
}

#[test]
fn low_frequency_lands_low() {
    /* 60 Hz kick territory -> bin round(60*2048/22050) = 6. */
    let expected_bin = (60.0 * WIN as f32 / SR as f32).round() as usize;
    let mut ex = extractor(60.0, SR);
    for frame in drain_all(&mut ex) {
        let (max_bin, _) = peak(&spectrum(&frame));
        assert!(
            (max_bin as i64 - expected_bin as i64).abs() <= 1,
            "frame {}: 60 Hz peaked at bin {max_bin}, expected ~{expected_bin}",
            frame.index,
        );
    }
}

#[test]
fn energy_is_concentrated_not_smeared() {
    let expected_bin = (440.0 * WIN as f32 / SR as f32).round() as usize;
    let mut ex = extractor(440.0, SR / 2);
    for frame in drain_all(&mut ex) {
        let f = spectrum(&frame);
        let near: f32 = (expected_bin - 3..=expected_bin + 3).map(|i| f[i]).sum();
        let total: f32 = f.iter().sum();
        assert!(
            near / total > 0.8,
            "frame {}: only {:.1}% of energy near the peak: window missing?",
            frame.index,
            100.0 * near / total,
        );
    }
}

#[test]
fn sample_rate_mismatch_is_rejected() {
    let wrong_rate = SinInputStream::new(440.0, 48_000, Some(1000));
    assert!(FrameExtractor::<f32, _, SR, WIN, HOP>::new(wrong_rate).is_err());
}

/// The resampler seen as an input stream.
struct Resampled(Resampler<f32, SinInputStream, SR>);

impl AudioInputStream<f32> for Resampled {
    type InputError = ResamplerError<std::convert::Infallible>;

    fn delivered(&self) -> band::input_stream::SampleLog<f32> {
        unreachable!("specification only")
    }

    fn answers(&self) -> band::input_stream::AnswerLog<Self::InputError> {
        unreachable!("specification only")
    }

    fn spec_sample_rate(&self) -> usize {
        self.0.sample_rate()
    }

    fn sample_rate(&self) -> usize {
        self.0.sample_rate()
    }

    fn next_samples(&mut self, buffer: &mut [f32]) -> Result<NextSamplesResult, Self::InputError> {
        self.0.next_samples(buffer)
    }
}

/// Generator (48 kHz) -> resampler (-> 22050) -> extractor: all three must agree on
/// where 440 Hz lives.
#[test]
fn resampled_sine_lands_in_the_same_bin() {
    let sine = SinInputStream::new(440.0, 48_000, Some(96_000)); /* 2 s */
    let resampled = Resampled(Resampler::<f32, _, SR>::new(sine).expect("resampler"));
    let mut ex = FrameExtractor::<f32, _, SR, WIN, HOP>::new(resampled).expect("extractor");

    let frames = drain_all(&mut ex);
    let expected_bin = (440.0 * WIN as f32 / SR as f32).round() as usize;

    /* Skip early frames: resampler startup transient. */
    for frame in frames.iter().skip(10) {
        let (max_bin, _) = peak(&spectrum(frame));
        assert!(
            (max_bin as i64 - expected_bin as i64).abs() <= 1,
            "frame {}: resampled 440 Hz peaked at bin {max_bin}, expected ~{expected_bin}",
            frame.index,
        );
    }
    assert!(frames.len() > 20, "resampled stream produced too few frames");
}

#[test]
fn windows_hold_consecutive_samples_hop_apart() {
    /* A ramp makes each sample its own position: window k starts at sample k * HOP. */
    struct Ramp {
        next: usize,
        len: usize,
    }
    impl AudioInputStream<f32> for Ramp {
        type InputError = std::convert::Infallible;
        fn delivered(&self) -> band::input_stream::SampleLog<f32> {
        unreachable!("specification only")
    }

    fn answers(&self) -> band::input_stream::AnswerLog<Self::InputError> {
        unreachable!("specification only")
    }

    fn spec_sample_rate(&self) -> usize {
            SR
        }
        fn sample_rate(&self) -> usize {
            SR
        }
        fn next_samples(&mut self, buffer: &mut [f32]) -> Result<NextSamplesResult, Self::InputError> {
            if self.next >= self.len {
                return Ok(NextSamplesResult::EndOfInput);
            }
            let n = buffer.len().min(self.len - self.next).min(100);
            for (i, b) in buffer.iter_mut().take(n).enumerate() {
                *b = (self.next + i) as f32;
            }
            self.next += n;
            Ok(NextSamplesResult::Samples(n))
        }
    }
    let mut ex = FrameExtractor::<f32, _, SR, WIN, HOP>::new(Ramp { next: 0, len: WIN + 3 * HOP }).expect("extractor");
    let frames = drain_all(&mut ex);
    assert_eq!(frames.len(), 4);
    for (k, frame) in frames.iter().enumerate() {
        assert_eq!(frame.samples.len(), WIN);
        for (i, s) in frame.samples.iter().enumerate() {
            assert_eq!(*s, (k * HOP + i) as f32);
        }
    }
}
