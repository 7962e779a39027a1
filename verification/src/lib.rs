//! Drum transcription from audio: the verified core of the pipeline.
//!
//! - audio input: the input stream abstraction (`input_stream`), resampling to a fixed
//!   rate (`resampler`), and the decisions of live capture (`live_source`);
//! - analysis: sliding sample windows (`frame_extractor`, `mel_extractor`) and a rolling
//!   window over frames (`frame_buffer`);
//! - training data: drum classes (`drum`), MIDI drum hits (`midi`), frame labels and the
//!   processed track format (`chunk`), preprocessing of one recording (`preprocess`), and
//!   the dataset indexes (`dataset`, `npz_dataset`);
//! - presentation: the live onset display (`display`) and spectrogram rows (`spectrogram`).
//!
//! Floating-point signal processing (FFT, filterbanks) and all I/O are left to callers.
pub mod config;
pub mod drum;
pub mod input_stream;
pub mod frame_extractor;
pub mod frame_buffer;
pub mod resampler;
pub mod midi;
pub mod chunk;
pub mod dataset;
pub mod preprocess;
pub mod live_source;
pub mod display;
pub mod spectrogram;
pub mod npz_dataset;
pub mod mel_extractor;
