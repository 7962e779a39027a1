//! Streaming sample windows for mel spectrogram extraction.
//!
//! Push audio samples in, take analysis windows out: samples arrive at any sample rate
//! and are resampled to `SAMPLING_RATE` as they come; each window holds `FFT_SIZE`
//! consecutive samples, and consecutive windows start `HOP_SIZE` samples apart. The same
//! extractor serves the training preprocessor (all samples of a recording pushed at once)
//! and live inference (samples pushed as each capture callback delivers them).
//!
//! Windowing each analysis window, its FFT and the mel filterbank are left to the caller.
use vstd::prelude::*;
use crate::config::{FFT_SIZE, HOP_SIZE, SAMPLING_RATE};
use crate::frame_extractor::complete_windows;
use crate::resampler::{ResamplerError, filled, joined, rubato_process_into_buffer};
use rubato::Resampler as _;
use rubato::ResamplerConstructionError as RubatoConstructionError;

verus! {

#[verifier::external_type_specification]
pub struct ExRubatoWindowFunction(rubato::WindowFunction);

/// Input chunk size of the resampler, in frames.
pub const MEL_RESAMPLER_CHUNK_SIZE: usize = 128;

/// Number of FFT sub-chunks the resampler splits each chunk into.
pub const MEL_RESAMPLER_SUB_CHUNKS: usize = 2;

/// `rubato::Fft::new_custom`: builds a synchronous FFT resampler. It validates the
/// sample rates and the chunk size first, and fails exactly when one of them is zero. Rates are bounded so
/// that the sizes it derives from them do not overflow.
#[verifier::external_body]
fn rubato_fft_new_custom<T: rubato::Sample>(
    sample_rate_input: usize,
    sample_rate_output: usize,
    chunk_size: usize,
    sub_chunks: usize,
    nbr_channels: usize,
    window: rubato::WindowFunction,
    fixed: rubato::FixedSync,
) -> (r: Result<rubato::Fft<T>, RubatoConstructionError>)
    requires
        sample_rate_input <= u32::MAX,
        sample_rate_output <= u32::MAX,
        chunk_size <= u32::MAX,
    ensures
        r is Ok <==> (sample_rate_input > 0 && sample_rate_output > 0 && chunk_size > 0),
{
    rubato::Fft::new_custom(sample_rate_input, sample_rate_output, chunk_size, sub_chunks, nbr_channels, window, fixed)
}

/// `rubato::Resampler::input_frames_next`: the number of input frames the next call of
/// `process_into_buffer` reads. With a fixed output size it follows the frames the
/// resampler keeps between calls, an internal state Verus sees nothing of, so nothing
/// is stated of it.
#[verifier::external_body]
fn rubato_input_frames_next<T: rubato::Sample>(resampler: &rubato::Fft<T>) -> usize {
    resampler.input_frames_next()
}

/// `rubato::Resampler::output_frames_next`: the number of output frames the next call of
/// `process_into_buffer` writes. With a fixed output size it is the chunk size the
/// resampler was built with; Verus sees nothing of how a resampler was built, so
/// nothing is stated of it.
#[verifier::external_body]
fn rubato_output_frames_next<T: rubato::Sample>(resampler: &rubato::Fft<T>) -> usize {
    resampler.output_frames_next()
}

/// Errors when pushing samples into a [`MelExtractor`].
#[derive(Debug)]
pub enum MelError {
    /// The FFT resampler failed.
    Resample(rubato::ResampleError),
    /// The buffers handed to the FFT resampler had the wrong size.
    BufferSize(rubato::audioadapter_buffers::SizeError),
}

/// Splits a stream of samples into overlapping analysis windows, resampling it to
/// `SAMPLING_RATE` first when it arrives at another rate.
#[verifier::reject_recursive_types(T)]
pub struct MelExtractor<T> {
    /// The resampler, when the input's sample rate differs from `SAMPLING_RATE`.
    resampler: Option<rubato::Fft<T>>,
    /// Raw input, at the sample rate of the raw input, waiting to be resampled.
    raw_input: Vec<T>,
    /// Samples at `SAMPLING_RATE` waiting to be windowed; the next window starts with the
    /// first of them.
    resampled_input: Vec<T>,
    /// Every sample at `SAMPLING_RATE` the extractor has had to window, in order.
    stream: Ghost<Seq<T>>,
    /// The number of windows taken so far.
    windows_taken: Ghost<nat>,
    /// Every sample pushed, in order.
    pushed: Ghost<Seq<T>>,
    /// The raw chunks handed to the resampler, in order: for each call, the samples at the
    /// start of the raw input that it reported reading.
    fed: Ghost<Seq<Seq<T>>>,
    /// What the resampler wrote for each chunk handed to it, in order.
    outputs: Ghost<Seq<Seq<T>>>,
    /// The number of raw frames the resampler said, when last asked, its next chunk needs.
    needed_next: Ghost<Option<usize>>,
}

impl<T> MelExtractor<T> {
    /// Whether the input is resampled.
    pub closed spec fn resamples(&self) -> bool {
        self.resampler is Some
    }

    /// Raw samples waiting for the resampler.
    pub closed spec fn raw(&self) -> Seq<T> {
        self.raw_input@
    }

    /// Samples at `SAMPLING_RATE` waiting to be windowed, oldest first.
    pub closed spec fn pending(&self) -> Seq<T> {
        self.resampled_input@
    }

    /// Every sample at `SAMPLING_RATE` the extractor has had to window, in order: the
    /// samples pushed, or, with resampling, the samples the resampler made of them.
    pub closed spec fn stream(&self) -> Seq<T> {
        self.stream@
    }

    /// The number of windows taken so far.
    pub closed spec fn windows_taken(&self) -> nat {
        self.windows_taken@
    }

    /// Every sample pushed, in order.
    pub closed spec fn pushed(&self) -> Seq<T> {
        self.pushed@
    }

    /// The raw chunks handed to the resampler, in order: for each call, the samples at the
    /// start of the raw input that it reported reading, which are then removed from it.
    pub closed spec fn fed(&self) -> Seq<Seq<T>> {
        self.fed@
    }

    /// What the resampler wrote for each chunk handed to it, in order: entry `i` is its
    /// output for chunk `i` of [`MelExtractor::fed`].
    pub closed spec fn outputs(&self) -> Seq<Seq<T>> {
        self.outputs@
    }

    /// The number of raw frames the resampler said, when last asked, its next chunk needs.
    pub closed spec fn needed_next(&self) -> Option<usize> {
        self.needed_next@
    }

    /// The samples waiting are the stream from the start of the next window on.
    closed spec fn windows_ok(&self) -> bool {
        &&& self.windows_taken@ * HOP_SIZE <= self.stream@.len()
        &&& self.resampled_input@ == self.stream@.skip(self.windows_taken@ * HOP_SIZE)
    }

    /// The samples pushed are the chunks handed to the resampler then the raw samples
    /// waiting, and the stream is what the resampler wrote for those chunks.
    closed spec fn resampling_ok(&self) -> bool {
        &&& self.pushed@ == joined(self.fed@) + self.raw_input@
        &&& self.stream@ == joined(self.outputs@)
        &&& self.fed@.len() == self.outputs@.len()
    }

    /// Without resampling, the stream is the samples pushed.
    closed spec fn direct_ok(&self) -> bool {
        &&& self.stream@ == self.pushed@
        &&& self.raw_input@.len() == 0
        &&& self.fed@.len() == 0
        &&& self.outputs@.len() == 0
    }

    /// Internal consistency of the extractor.
    pub closed spec fn wf(&self) -> bool {
        &&& self.windows_ok()
        &&& self.resampler is Some ==> self.resampling_ok()
        &&& self.resampler is None ==> self.direct_ok()
    }

    /// The stream the windows are cut from: without resampling, exactly the samples
    /// pushed, however they were split into pushes; with it, what the resampler wrote for
    /// the chunks handed to it, which are the samples pushed, in order, but for the raw
    /// samples still waiting.
    pub proof fn lemma_stream_is_made_of_the_samples_pushed(&self)
        requires
            self.wf(),
        ensures
            !self.resamples() ==> self.stream() == self.pushed(),
            self.resamples() ==> {
                &&& self.pushed() == joined(self.fed()) + self.raw()
                &&& self.stream() == joined(self.outputs())
                &&& self.fed().len() == self.outputs().len()
            },
    {
    }

    /// How many windows a stream yields: a window can be taken exactly while fewer than
    /// `complete_windows(stream length, FFT_SIZE, HOP_SIZE)` were taken, so draining the
    /// extractor after pushing `n` samples at `SAMPLING_RATE` gives
    /// `(n - FFT_SIZE) / HOP_SIZE + 1` windows when `n >= FFT_SIZE`, and none otherwise.
    pub proof fn lemma_windows_left(&self)
        requires
            self.wf(),
        ensures
            (self.pending().len() >= FFT_SIZE) <==> self.windows_taken() < complete_windows(
                self.stream().len(),
                FFT_SIZE as nat,
                HOP_SIZE as nat,
            ),
    {
        let n = self.stream@.len() as int;
        let k = self.windows_taken@ as int;
        let h = HOP_SIZE as int;
        let w = FFT_SIZE as int;
        assert(self.pending().len() == n - k * h);
        if n >= w {
            let q = (n - w) / h;
            assert(k * h <= n - w <==> k <= q) by (nonlinear_arith)
                requires
                    h > 0,
                    q == (n - w) / h,
                    n - w >= 0,
                    k >= 0,
            ;
        } else {
            assert(k * h >= 0) by (nonlinear_arith)
                requires
                    k >= 0,
                    h > 0,
            ;
        }
    }

    /// However pushes and takes interleave, the samples waiting are the stream from
    /// sample `windows_taken() * HOP_SIZE` on: the next window starts there.
    pub proof fn lemma_pending_is_the_stream_after_the_windows_taken(&self)
        requires
            self.wf(),
        ensures
            self.windows_taken() * HOP_SIZE <= self.stream().len(),
            self.pending() == self.stream().skip(self.windows_taken() * HOP_SIZE),
    {
    }
}

impl<T: Copy + Default + rubato::Sample> MelExtractor<T> {
    /// An extractor for input at `input_sample_rate`, with nothing pushed yet. The input
    /// is resampled unless it already is at `SAMPLING_RATE`.
    ///
    /// Fails when the input sample rate is zero.
    pub fn new(input_sample_rate: usize) -> (r: Result<Self, RubatoConstructionError>)
        requires
            input_sample_rate <= u32::MAX,
        ensures
            r is Ok <==> input_sample_rate > 0,
            r matches Ok(m) ==> {
                &&& m.wf()
                &&& m.resamples() == (input_sample_rate != SAMPLING_RATE)
                &&& m.raw().len() == 0
                &&& m.pending().len() == 0
                &&& m.stream().len() == 0
                &&& m.windows_taken() == 0
                &&& m.pushed().len() == 0
                &&& m.fed().len() == 0
            },
    {
        let resampler = if input_sample_rate == SAMPLING_RATE {
            None
        } else {
            match rubato_fft_new_custom::<T>(
                input_sample_rate,
                SAMPLING_RATE,
                MEL_RESAMPLER_CHUNK_SIZE,
                MEL_RESAMPLER_SUB_CHUNKS,
                1,
                rubato::WindowFunction::BlackmanHarris2,
                rubato::FixedSync::Output,
            ) {
                Ok(resampler) => Some(resampler),
                Err(error) => return Err(error),
            }
        };
        let m = MelExtractor {
            resampler,
            raw_input: Vec::new(),
            resampled_input: Vec::new(),
            stream: Ghost(Seq::empty()),
            windows_taken: Ghost(0),
            pushed: Ghost(Seq::empty()),
            fed: Ghost(Seq::empty()),
            outputs: Ghost(Seq::empty()),
            needed_next: Ghost(None),
        };
        assert(m.stream@.skip(0) =~= m.resampled_input@);
        assert(joined(m.fed@) + m.raw_input@ =~= m.pushed@);
        Ok(m)
    }

    /// Appends samples to the stream. Without resampling they are ready to be windowed
    /// at once; with it, the raw input is resampled chunk by chunk, as far as whole
    /// chunks are available, and the resampled samples follow those already waiting.
    ///
    /// Fails when the resampler does; the samples resampled until then stay.
    pub fn push(&mut self, samples: &[T]) -> (r: Result<(), MelError>)
        requires
            old(self).wf(),
        ensures
            final(self).wf(),
            final(self).resamples() == old(self).resamples(),
            final(self).windows_taken() == old(self).windows_taken(),
            final(self).pushed() == old(self).pushed() + samples@,
            final(self).stream() == old(self).stream() + final(self).pending().skip(old(self).pending().len() as int),
            !old(self).resamples() ==> {
                &&& r is Ok
                &&& final(self).pending() == old(self).pending() + samples@
                &&& final(self).raw() == old(self).raw()
            },
            old(self).resamples() ==> {
                &&& old(self).fed().is_prefix_of(final(self).fed())
                &&& old(self).outputs().is_prefix_of(final(self).outputs())
                &&& old(self).raw() + samples@ == joined(final(self).fed().skip(old(self).fed().len() as int))
                    + final(self).raw()
                &&& final(self).pending() == old(self).pending() + joined(
                    final(self).outputs().skip(old(self).outputs().len() as int),
                )
                &&& r is Ok ==> {
                    ||| final(self).needed_next() matches Some(n) && final(self).raw().len() < n
                    ||| final(self).fed().len() == old(self).fed().len() + usize::MAX
                }
            },
    {
        let ghost pending_before = self.resampled_input@;
        proof {
            self.pushed@ = self.pushed@ + samples@;
        }
        match self.resampler.take() {
            None => {
                append_samples(&mut self.resampled_input, samples);
                proof {
                    let start = self.windows_taken@ * HOP_SIZE;
                    self.stream@ = self.stream@ + samples@;
                    assert(self.stream@.skip(start) =~= old(self).stream@.skip(start) + samples@);
                    assert(self.resampled_input@.skip(pending_before.len() as int) =~= samples@);
                }
                Ok(())
            },
            Some(mut resampler) => {
                append_samples(&mut self.raw_input, samples);
                assert(joined(self.fed@) + self.raw_input@ =~= old(self).pushed@ + samples@);
                let r = self.resample_raw(&mut resampler);
                self.resampler = Some(resampler);
                assert(self.resampled_input@.skip(pending_before.len() as int) =~= joined(
                    self.outputs@.skip(old(self).outputs@.len() as int),
                ));
                r
            },
        }
    }

    /// Takes the next analysis window: the first `FFT_SIZE` samples waiting, if that many
    /// are, after which the stream advances by `HOP_SIZE` samples.
    pub fn next_window(&mut self) -> (r: Option<Vec<T>>)
        requires
            old(self).wf(),
        ensures
            final(self).wf(),
            final(self).stream() == old(self).stream(),
            r is Some ==> final(self).windows_taken() == old(self).windows_taken() + 1,
            r is None ==> final(self).windows_taken() == old(self).windows_taken(),
            r matches Some(window) ==> window@ == old(self).stream().subrange(
                old(self).windows_taken() * HOP_SIZE,
                old(self).windows_taken() * HOP_SIZE + FFT_SIZE,
            ),
            final(self).resamples() == old(self).resamples(),
            final(self).raw() == old(self).raw(),
            old(self).pending().len() >= FFT_SIZE ==> (r matches Some(window) && window@ == old(
                self,
            ).pending().take(FFT_SIZE as int) && final(self).pending() == old(self).pending().skip(
                HOP_SIZE as int,
            )),
            old(self).pending().len() < FFT_SIZE ==> r is None && final(self).pending() == old(self).pending(),
    {
        if self.resampled_input.len() < FFT_SIZE {
            return None;
        }
        let window = vstd::slice::slice_to_vec(vstd::slice::slice_subrange(self.resampled_input.as_slice(), 0, FFT_SIZE));
        let rest = self.resampled_input.split_off(HOP_SIZE);
        self.resampled_input = rest;
        proof {
            let start = self.windows_taken@ * HOP_SIZE;
            let pending = old(self).resampled_input@;
            assert(pending.take(FFT_SIZE as int) =~= self.stream@.subrange(start, start + FFT_SIZE));
            assert(self.resampled_input@ =~= pending.skip(HOP_SIZE as int));
            assert(self.stream@.skip(start).skip(HOP_SIZE as int) =~= self.stream@.skip(start + HOP_SIZE));
            let k = self.windows_taken@;
            self.windows_taken@ = k + 1;
            assert((k + 1) * HOP_SIZE == k * HOP_SIZE + HOP_SIZE) by (nonlinear_arith);
        }
        Some(window)
    }

    /// Resamples the raw input chunk by chunk, as long as the resampler's next chunk is
    /// available in full, and appends what it writes to the samples waiting; the raw
    /// samples used up are removed.
    fn resample_raw(&mut self, resampler: &mut rubato::Fft<T>) -> (r: Result<(), MelError>)
        requires
            old(self).windows_ok(),
            old(self).resampling_ok(),
        ensures
            final(self).windows_ok(),
            final(self).resampling_ok(),
            final(self).resampler == old(self).resampler,
            final(self).windows_taken == old(self).windows_taken,
            final(self).pushed == old(self).pushed,
            old(self).fed@.is_prefix_of(final(self).fed@),
            old(self).outputs@.is_prefix_of(final(self).outputs@),
            old(self).raw_input@ == joined(final(self).fed@.skip(old(self).fed@.len() as int)) + final(self).raw_input@,
            final(self).resampled_input@ == old(self).resampled_input@ + joined(
                final(self).outputs@.skip(old(self).outputs@.len() as int),
            ),
            final(self).stream@ == old(self).stream@ + joined(final(self).outputs@.skip(old(self).outputs@.len() as int)),
            r is Ok ==> {
                ||| final(self).needed_next@ matches Some(n) && final(self).raw_input@.len() < n
                ||| final(self).fed@.len() == old(self).fed@.len() + usize::MAX
            },
    {
        let ghost f0 = self.fed@.len();
        let ghost o0 = self.outputs@.len();
        let ghost raw0 = self.raw_input@;
        let ghost res0 = self.resampled_input@;
        let ghost stream0 = self.stream@;
        assert(self.fed@.skip(f0 as int) =~= Seq::<Seq<T>>::empty());
        assert(self.outputs@.skip(o0 as int) =~= Seq::<Seq<T>>::empty());
        assert(raw0 =~= joined(self.fed@.skip(f0 as int)) + raw0);
        assert(res0 =~= res0 + joined(self.outputs@.skip(o0 as int)));
        assert(stream0 =~= stream0 + joined(self.outputs@.skip(o0 as int)));
        assert(self.fed@.subrange(0, f0 as int) =~= self.fed@);
        assert(self.outputs@.subrange(0, o0 as int) =~= self.outputs@);
        let mut rounds: usize = usize::MAX;
        loop
            invariant
                self.windows_ok(),
                self.resampling_ok(),
                self.resampler == old(self).resampler,
                self.windows_taken == old(self).windows_taken,
                self.pushed == old(self).pushed,
                f0 == old(self).fed@.len(),
                o0 == old(self).outputs@.len(),
                raw0 == old(self).raw_input@,
                res0 == old(self).resampled_input@,
                stream0 == old(self).stream@,
                f0 <= self.fed@.len(),
                o0 <= self.outputs@.len(),
                self.fed@.subrange(0, f0 as int) == old(self).fed@,
                self.outputs@.subrange(0, o0 as int) == old(self).outputs@,
                self.fed@.len() - f0 == usize::MAX - rounds,
                raw0 == joined(self.fed@.skip(f0 as int)) + self.raw_input@,
                self.resampled_input@ == res0 + joined(self.outputs@.skip(o0 as int)),
                self.stream@ == stream0 + joined(self.outputs@.skip(o0 as int)),
            decreases rounds,
        {
            if rounds == 0 {
                return Ok(());
            }
            rounds = rounds - 1;
            let needed_in = rubato_input_frames_next(resampler);
            if self.raw_input.len() < needed_in {
                proof {
                    self.needed_next@ = Some(needed_in);
                }
                return Ok(());
            }
            let needed_out = rubato_output_frames_next(resampler);
            let mut out = filled(T::default(), needed_out);
            let (read, written) = match rubato_process_into_buffer::<T, ()>(resampler, &self.raw_input, &mut out) {
                Ok(counts) => counts,
                Err(ResamplerError::ResampleError(error)) => return Err(MelError::Resample(error)),
                Err(ResamplerError::BufferSizeError(error)) => return Err(MelError::BufferSize(error)),
                Err(ResamplerError::InputStreamError(_)) => {
                    assert(false);
                    return Ok(());
                },
            };
            let ghost piece = out@.take(written as int);
            let ghost res_before = self.resampled_input@;
            append_samples(&mut self.resampled_input, vstd::slice::slice_subrange(out.as_slice(), 0, written));
            assert(self.resampled_input@ =~= res_before + piece);
            let ghost raw_before = self.raw_input@;
            let ghost chunk = raw_before.take(read as int);
            let rest = self.raw_input.split_off(read);
            self.raw_input = rest;
            proof {
                assert(raw_before =~= chunk + self.raw_input@);
                let fed = self.fed@;
                let outputs = self.outputs@;
                let stream = self.stream@;
                let start = self.windows_taken@ * HOP_SIZE;
                self.fed@ = fed.push(chunk);
                self.outputs@ = outputs.push(piece);
                self.stream@ = stream + piece;
                assert(self.fed@.drop_last() =~= fed);
                assert(self.outputs@.drop_last() =~= outputs);
                assert(self.fed@.skip(f0 as int) =~= fed.skip(f0 as int).push(chunk));
                assert(self.fed@.skip(f0 as int).drop_last() =~= fed.skip(f0 as int));
                assert(self.outputs@.skip(o0 as int) =~= outputs.skip(o0 as int).push(piece));
                assert(self.outputs@.skip(o0 as int).drop_last() =~= outputs.skip(o0 as int));
                assert(joined(self.fed@) + self.raw_input@ =~= joined(fed) + raw_before);
                assert(raw0 =~= joined(self.fed@.skip(f0 as int)) + self.raw_input@);
                assert(self.resampled_input@ =~= res0 + joined(self.outputs@.skip(o0 as int)));
                assert(self.stream@ =~= stream0 + joined(self.outputs@.skip(o0 as int)));
                assert(self.stream@.skip(start) =~= stream.skip(start) + piece);
                assert(self.fed@.subrange(0, f0 as int) =~= fed.subrange(0, f0 as int));
                assert(self.outputs@.subrange(0, o0 as int) =~= outputs.subrange(0, o0 as int));
            }
        }
    }
}

/// Appends `samples` to `buffer`, in order.
fn append_samples<T: Copy>(buffer: &mut Vec<T>, samples: &[T])
    ensures
        final(buffer)@ == old(buffer)@ + samples@,
{
    let mut i: usize = 0;
    while i < samples.len()
        invariant
            i <= samples@.len(),
            buffer@ == old(buffer)@ + samples@.subrange(0, i as int),
        decreases samples@.len() - i,
    {
        buffer.push(samples[i]);
        i = i + 1;
        assert(buffer@ =~= old(buffer)@ + samples@.subrange(0, i as int));
    }
    assert(samples@.subrange(0, samples@.len() as int) =~= samples@);
}

} // verus!
