use band::config::{FFT_SIZE, HOP_SIZE, SAMPLING_RATE};
use band::mel_extractor::MelExtractor;

#[test]
fn windows_at_native_rate_hop_through_the_samples() {
    let mut ex = MelExtractor::<f32>::new(SAMPLING_RATE).expect("construction");
    let samples: Vec<f32> = (0..5000).map(|i| i as f32).collect();
    ex.push(&samples[..1000]).expect("push");
    assert!(ex.next_window().is_none());
    ex.push(&samples[1000..]).expect("push");
    let mut windows = Vec::new();
    while let Some(w) = ex.next_window() {
        windows.push(w);
    }
    assert_eq!(windows.len(), (5000 - FFT_SIZE) / HOP_SIZE + 1);
    for (k, w) in windows.iter().enumerate() {
        assert_eq!(w.len(), FFT_SIZE);
        assert_eq!(w[0], (k * HOP_SIZE) as f32);
        assert_eq!(w[FFT_SIZE - 1], (k * HOP_SIZE + FFT_SIZE - 1) as f32);
    }
}

#[test]
fn zero_sample_rate_is_rejected() {
    assert!(MelExtractor::<f32>::new(0).is_err());
}

#[test]
fn other_rates_are_resampled_to_the_analysis_rate() {
    let mut ex = MelExtractor::<f32>::new(48_000).expect("construction");
    let samples: Vec<f32> = (0..48_000).map(|i| (i as f32 * 0.05).sin()).collect();
    for part in samples.chunks(997) {
        ex.push(part).expect("push");
    }
    let mut count = 0;
    while let Some(w) = ex.next_window() {
        assert_eq!(w.len(), FFT_SIZE);
        count += 1;
    }
    /* one second at 44100 Hz: about (44100 - 2048) / 441 + 1 = 96 windows */
    assert!((90..=97).contains(&count), "got {count} windows");
}

#[test]
fn windows_follow_the_stream_however_pushes_and_takes_interleave() {
    let mut ex = MelExtractor::<f32>::new(SAMPLING_RATE).expect("construction");
    let samples: Vec<f32> = (0..6000).map(|i| i as f32).collect();
    let mut windows = Vec::new();
    for part in samples.chunks(300) {
        ex.push(part).expect("push");
        if let Some(w) = ex.next_window() {
            windows.push(w);
        }
    }
    while let Some(w) = ex.next_window() {
        windows.push(w);
    }
    assert_eq!(windows.len(), (6000 - FFT_SIZE) / HOP_SIZE + 1);
    for (k, w) in windows.iter().enumerate() {
        assert_eq!(w[0], (k * HOP_SIZE) as f32);
        assert_eq!(w[FFT_SIZE - 1], (k * HOP_SIZE + FFT_SIZE - 1) as f32);
    }
}
