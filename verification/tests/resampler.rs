use band::input_stream::{AudioInputStream, NextSamplesResult};
use band::resampler::Resampler;

/// Input stream generating a sine wave, optionally limited to a number of samples.
#[derive(Debug)]
struct SinInputStream {
    frequency: f32,
    sample_rate: usize,
    max_samples: Option<usize>,
    generated_samples: usize,
    phase: f32,
}

impl SinInputStream {
    fn new(frequency: f32, sample_rate: usize, max_samples: Option<usize>) -> Self {
        Self { frequency, sample_rate, max_samples, generated_samples: 0, phase: 0.0 }
    }

    fn next_sample(&mut self) -> Option<f32> {
        if let Some(max_samples) = self.max_samples {
            if self.generated_samples >= max_samples {
                return None;
            }
        }
        self.phase += std::f32::consts::TAU * self.frequency / self.sample_rate as f32;
        if self.phase >= std::f32::consts::TAU {
            self.phase -= std::f32::consts::TAU;
        }
        self.generated_samples += 1;
        Some(self.phase.sin())
    }
}

impl AudioInputStream<f32> for SinInputStream {
    type InputError = std::convert::Infallible;

    fn delivered(&self) -> band::input_stream::SampleLog<f32> {
        unreachable!("specification only")
    }

    fn answers(&self) -> band::input_stream::AnswerLog<Self::InputError> {
        unreachable!("specification only")
    }

    fn spec_sample_rate(&self) -> usize {
        self.sample_rate
    }

    fn sample_rate(&self) -> usize {
        self.sample_rate
    }

    fn next_samples(&mut self, buffer: &mut [f32]) -> Result<NextSamplesResult, Self::InputError> {
        let mut written = 0;
        for elem in buffer.iter_mut() {
            match self.next_sample() {
                Some(sample) => *elem = sample,
                None => break,
            }
            written += 1;
        }
        if written == 0 && !buffer.is_empty() {
            Ok(NextSamplesResult::EndOfInput)
        } else {
            Ok(NextSamplesResult::Samples(written))
        }
    }
}

/// Drain a resampler to completion, pulling with a fixed caller buffer size.
/// Panics on Unavailable: finite test sources must never starve.
fn drain_all<const SR: usize>(stream: &mut Resampler<f32, SinInputStream, SR>, pull_size: usize) -> Vec<f32> {
    let mut out = Vec::new();
    let mut buf = vec![0.0f32; pull_size];
    loop {
        match stream.next_samples(&mut buf).expect("stream error") {
            NextSamplesResult::Samples(n) => {
                assert!(n > 0, "Samples(0) for non-empty buffer violates trait contract");
                out.extend_from_slice(&buf[..n]);
            }
            NextSamplesResult::Unavailable => {
                panic!("finite source reported Unavailable")
            }
            NextSamplesResult::EndOfInput => return out,
        }
    }
}

/// Frequency estimate by zero-crossing count. Good to ~1% on clean sines.
fn estimate_frequency(samples: &[f32], sample_rate: usize) -> f32 {
    let crossings = samples.windows(2).filter(|w| (w[0] <= 0.0) != (w[1] <= 0.0)).count();
    let duration = samples.len() as f32 / sample_rate as f32;
    crossings as f32 / 2.0 / duration
}

fn rms(samples: &[f32]) -> f32 {
    (samples.iter().map(|s| s * s).sum::<f32>() / samples.len() as f32).sqrt()
}

#[test]
fn output_length_matches_ratio() {
    // 1 second at 48 kHz -> expect ~1 second at 22050.
    let input_len = 48_000;
    let sine = SinInputStream::new(440.0, 48_000, Some(input_len));
    let mut rs = Resampler::<f32, _, 22050>::new(sine).expect("construction");
    let out = drain_all(&mut rs, 1000);

    let expected = input_len * 22050 / 48_000; // 22050
    // Tolerance: filter delay + one output chunk of slack.
    let tolerance = 32;
    assert!(
        (out.len() as i64 - expected as i64).unsigned_abs() as usize <= tolerance,
        "got {} samples, expected ~{expected} (±{tolerance})",
        out.len()
    );
}

#[test]
fn frequency_is_preserved() {
    let sine = SinInputStream::new(440.0, 48_000, Some(96_000)); // 2 s
    let mut rs = Resampler::<f32, _, 22050>::new(sine).expect("construction");
    let out = drain_all(&mut rs, 1000);

    // Skip the resampler's startup transient before measuring.
    let settled = &out[2048..];
    let f = estimate_frequency(settled, 22050);
    assert!((f - 440.0).abs() < 5.0, "estimated {f} Hz, expected ~440 Hz");
    // full-scale sine RMS = 1/sqrt(2) ~= 0.707.
    assert!(rms(settled) > 0.6, "rms {} too low", rms(settled));
}

#[test]
fn above_22050_nyquist_is_rejected() {
    // 15 kHz is legal at 48 kHz input but above 22050/2 = 11025 Hz.
    let sine = SinInputStream::new(15_000.0, 48_000, Some(96_000));
    let mut rs = Resampler::<f32, _, 22050>::new(sine).expect("construction");
    let out = drain_all(&mut rs, 1000);

    let settled = &out[2048..];
    assert!(rms(settled) < 0.05, "rms {} — above-Nyquist content leaked through (aliasing)", rms(settled));
}

#[test]
fn eof_flush_preserves_tail_on_non_chunk_multiple() {
    // Length deliberately NOT a multiple of the 512 input chunk.
    let input_len = 48_000 + 137;
    let sine = SinInputStream::new(440.0, 48_000, Some(input_len));
    let mut rs = Resampler::<f32, _, 22050>::new(sine).expect("construction");
    let out = drain_all(&mut rs, 1000);

    let expected = input_len * 22050 / 48_000;
    let tolerance = 1024;
    assert!(
        (out.len() as i64 - expected as i64).unsigned_abs() as usize <= tolerance,
        "tail dropped? got {}, expected ~{expected}",
        out.len()
    );
}

#[test]
fn end_of_input_is_idempotent() {
    let sine = SinInputStream::new(440.0, 48_000, Some(4800));
    let mut rs = Resampler::<f32, _, 22050>::new(sine).expect("construction");
    let _ = drain_all(&mut rs, 1000);

    let mut buf = vec![0.0f32; 64];
    for _ in 0..3 {
        assert!(matches!(rs.next_samples(&mut buf).expect("stream error"), NextSamplesResult::EndOfInput));
    }
}

#[test]
fn tiny_caller_buffers_lose_nothing() {
    // Same input drained with pull_size 7 vs 1000 must yield identical output.
    let make = || {
        let sine = SinInputStream::new(440.0, 48_000, Some(20_000));
        Resampler::<f32, _, 22050>::new(sine).expect("construction")
    };
    let a = drain_all(&mut make(), 7);
    let b = drain_all(&mut make(), 1000);
    assert_eq!(a.len(), b.len(), "length differs by pull size");
    assert!(a.iter().zip(&b).all(|(x, y)| x == y), "output depends on caller buffer size");
}

#[test]
fn resampler_reports_its_target_rate() {
    let sine = SinInputStream::new(440.0, 48_000, Some(10));
    let rs = Resampler::<f32, _, 22050>::new(sine).expect("construction");
    assert_eq!(rs.sample_rate(), 22050);
}

#[test]
fn zero_input_rate_is_rejected() {
    let sine = SinInputStream::new(440.0, 0, Some(10));
    assert!(Resampler::<f32, _, 22050>::new(sine).is_err());
}
