//! An input stream that converts another input stream to a fixed target sample rate.
//!
//! The signal processing is done by `rubato`'s FFT resampler; this module does the
//! buffering around it: filling its input chunk from the inner stream, and handing its
//! output to callers whose buffers may be of any size.
use vstd::prelude::*;
use crate::input_stream::{AudioInputStream, NextSamplesResult, has_ended, next_samples_contract};
use rubato::Resampler as _;
use rubato::ResamplerConstructionError as RubatoConstructionError;
use rubato::audioadapter_buffers::direct::InterleavedSlice;

verus! {

#[verifier::external_type_specification]
#[verifier::external_body]
#[verifier::reject_recursive_types(T)]
pub struct ExRubatoFft<T>(rubato::Fft<T>);

#[verifier::external_type_specification]
pub struct ExRubatoFixedSync(rubato::FixedSync);

#[verifier::external_type_specification]
#[verifier::external_body]
pub struct ExRubatoConstructionError(RubatoConstructionError);

#[verifier::external_type_specification]
#[verifier::external_body]
pub struct ExRubatoResampleError(rubato::ResampleError);

#[verifier::external_type_specification]
#[verifier::external_body]
pub struct ExAdapterSizeError(rubato::audioadapter_buffers::SizeError);

/// Errors when constructing a [`Resampler`].
#[derive(Debug)]
pub enum ResamplerConstructionError {
    /// The FFT resampler refused the parameters.
    Rubato(RubatoConstructionError),
}

/// Errors when reading from a [`Resampler`].
#[derive(Debug)]
pub enum ResamplerError<E> {
    /// The inner input stream failed.
    InputStreamError(E),
    /// The FFT resampler failed.
    ResampleError(rubato::ResampleError),
    /// The buffers handed to the FFT resampler had the wrong size.
    BufferSizeError(rubato::audioadapter_buffers::SizeError),
}

/// Input chunk size of the FFT resampler. Bigger is less cpu but more latency,
/// smaller is more cpu but less latency.
pub const RESAMPLER_CHUNK_SIZE: usize = 512;

/// `rubato::Fft::new`: builds a synchronous FFT resampler for one channel.
/// It validates the sample rates and the chunk size first, and fails exactly when one of
/// them is zero.
/// Rates are bounded so that the sizes it derives from them do not overflow.
#[verifier::external_body]
fn rubato_fft_new<T: rubato::Sample>(
    sample_rate_input: usize,
    sample_rate_output: usize,
    chunk_size: usize,
    nbr_channels: usize,
    fixed: rubato::FixedSync,
) -> (r: Result<rubato::Fft<T>, RubatoConstructionError>)
    requires
        sample_rate_input <= u32::MAX,
        sample_rate_output <= u32::MAX,
        chunk_size <= u32::MAX,
    ensures
        r is Ok <==> (sample_rate_input > 0 && sample_rate_output > 0 && chunk_size > 0),
{
    rubato::Fft::new(sample_rate_input, sample_rate_output, chunk_size, nbr_channels, fixed)
}

/// `rubato::Resampler::input_frames_max`: the largest input chunk the resampler asks for.
/// It is at least one frame: the chunk size was checked to be
/// positive when the resampler was built, and every input chunk holds at least one FFT
/// block of at least one frame.
#[verifier::external_body]
fn rubato_input_frames_max<T: rubato::Sample>(resampler: &rubato::Fft<T>) -> (r: usize)
    ensures
        r > 0,
{
    resampler.input_frames_max()
}

/// `rubato::Resampler::output_frames_max`: the largest output chunk the resampler produces.
#[verifier::external_body]
fn rubato_output_frames_max<T: rubato::Sample>(resampler: &rubato::Fft<T>) -> usize {
    resampler.output_frames_max()
}

/// `rubato::Resampler::process_into_buffer` on one channel, with no indexing: resamples
/// one chunk read from the start of `input` into the start of `output`, and returns the
/// number of input samples the chunk held (the resampler's input chunk size), then the
/// number of samples written to `output`. The slices are handed over through
/// `InterleavedSlice` views of their whole length.
///
/// The resampler reads exactly the first samples of `input`, as many as the first count
/// returned; it refuses (with an error) an input shorter than its chunk, and an output
/// buffer shorter than the chunk it writes, so both counts fit their buffers. The counts
/// are the resampler's chunk sizes at the time of the call, which follow its internal
/// state (the frames it keeps between calls); Verus sees nothing of that state, so only
/// the bounds are stated. Which samples are written is not stated either: they are the
/// resampler's signal processing.
#[verifier::external_body]
pub(crate) fn rubato_process_into_buffer<T: rubato::Sample, E>(
    resampler: &mut rubato::Fft<T>,
    input: &Vec<T>,
    output: &mut Vec<T>,
) -> (r: Result<(usize, usize), ResamplerError<E>>)
    ensures
        final(output)@.len() == old(output)@.len(),
        r matches Ok((read, written)) ==> read <= input@.len() && written <= old(output)@.len(),
        r matches Err(e) ==> !(e is InputStreamError),
{
    let out_capacity = output.len();
    let buffer_in = InterleavedSlice::new(input.as_slice(), 1, input.len()).map_err(ResamplerError::BufferSizeError)?;
    let mut buffer_out = InterleavedSlice::new_mut(output.as_mut_slice(), 1, out_capacity).map_err(ResamplerError::BufferSizeError)?;
    match resampler.process_into_buffer(&buffer_in, &mut buffer_out, None) {
        Ok((read, written)) => Ok((read, written)),
        Err(error) => Err(ResamplerError::ResampleError(error)),
    }
}

/// An input stream resampling another input stream to `TARGET_SAMPLE_RATE`.
#[verifier::reject_recursive_types(T)]
pub struct Resampler<T, I, const TARGET_SAMPLE_RATE: usize> {
    input_stream: I,
    resampler: rubato::Fft<T>,

    input_buffer: Vec<T>,
    input_buffer_end: usize,

    output_buffer: Vec<T>,
    output_buffer_start: usize,
    output_buffer_end: usize,

    /// Every sample the FFT resampler has written so far, in order.
    produced: Ghost<Seq<T>>,
    /// Every sample handed to a caller so far, in order.
    delivered: Ghost<Seq<T>>,
    /// Every sample read from the inner stream so far, in order.
    read: Ghost<Seq<T>>,
    /// The chunks handed to the FFT resampler so far, in order, each with whether it was
    /// the incomplete chunk flushed at an end of input.
    chunks: Ghost<Seq<(Seq<T>, bool)>>,
    /// The samples the inner stream had delivered before the resampler took it.
    read_before: Ghost<Seq<T>>,
    /// What the FFT resampler wrote for each chunk handed to it, in order.
    outputs: Ghost<Seq<Seq<T>>>,
    /// What the FFT resampler read for each chunk handed to it, in order: the samples of
    /// the chunk, then, for a chunk flushed at an end of input, silence.
    inputs: Ghost<Seq<Seq<T>>>,
    /// The sample that pads a chunk flushed at an end of input: `T::default()`, taken
    /// once when the resampler is built.
    silence: T,
}

/// The samples of `pieces`, one piece after the other.
pub open spec fn joined<T>(pieces: Seq<Seq<T>>) -> Seq<T>
    decreases pieces.len(),
{
    if pieces.len() == 0 {
        seq![]
    } else {
        joined(pieces.drop_last()) + pieces.last()
    }
}

/// The resampler read `input` for `chunk`, a chunk's samples with whether it was flushed
/// at an end of input: the chunk's samples, followed only by `silence`; a chunk not
/// flushed is all it read.
pub open spec fn chunk_read_as<T>(chunk: (Seq<T>, bool), input: Seq<T>, silence: T) -> bool {
    &&& chunk.0.len() <= input.len()
    &&& input == chunk.0 + Seq::new((input.len() - chunk.0.len()) as nat, |k: int| silence)
    &&& !chunk.1 ==> input == chunk.0
}

/// The number of samples waiting, of `available`, that a chunk of `read` samples takes.
pub open spec fn taken(read: usize, available: nat) -> nat {
    if read < available {
        read as nat
    } else {
        available
    }
}

/// The samples of `chunks`, one chunk after the other.
pub open spec fn chunk_samples<T>(chunks: Seq<(Seq<T>, bool)>) -> Seq<T>
    decreases chunks.len(),
{
    if chunks.len() == 0 {
        seq![]
    } else {
        chunk_samples(chunks.drop_last()) + chunks.last().0
    }
}

impl<T, I: AudioInputStream<T>, const TARGET_SAMPLE_RATE: usize> Resampler<T, I, TARGET_SAMPLE_RATE> {
    /// Positions in the two buffers stay within them, and the samples produced so far are
    /// those handed out followed by those waiting.
    pub closed spec fn wf(&self) -> bool {
        &&& self.input_buffer_end <= self.input_buffer@.len()
        &&& self.output_buffer_start <= self.output_buffer_end
        &&& self.output_buffer_end <= self.output_buffer@.len()
        &&& self.produced@ == self.delivered@ + self.pending_output()
        &&& chunk_samples(self.chunks@) + self.pending_input() == self.read@
        &&& self.inputs@.len() == self.chunks@.len()
        &&& forall|i: int| 0 <= i < self.chunks@.len() ==> chunk_read_as(
            #[trigger] self.chunks@[i],
            self.inputs@[i],
            self.silence,
        )
        &&& self.input_buffer@.len() > 0
        &&& self.input_stream.delivered() == self.read_before@ + self.read@
        &&& self.produced@ == joined(self.outputs@)
        &&& self.outputs@.len() == self.chunks@.len()
    }

    /// What the FFT resampler wrote for each chunk handed to it, in order: entry `i` is
    /// its output for chunk `i` of [`Resampler::chunks`].
    pub closed spec fn outputs(&self) -> Seq<Seq<T>> {
        self.outputs@
    }

    /// The samples produced are what the FFT resampler wrote, chunk after chunk, and each
    /// chunk handed to it has its output.
    pub proof fn lemma_produced_is_what_the_resampler_wrote(&self)
        requires
            self.wf(),
        ensures
            self.produced() == joined(self.outputs()),
            self.outputs().len() == self.chunks().len(),
    {
    }

    /// The samples the inner stream had delivered before the resampler took it.
    pub closed spec fn read_before(&self) -> Seq<T> {
        self.read_before@
    }

    /// Every sample read from the inner stream so far, in order.
    pub closed spec fn read(&self) -> Seq<T> {
        self.read@
    }

    /// The chunks handed to the FFT resampler so far, in order, each with whether it was
    /// the incomplete chunk flushed at an end of input.
    pub closed spec fn chunks(&self) -> Seq<(Seq<T>, bool)> {
        self.chunks@
    }

    /// What the FFT resampler read for each chunk handed to it, in order.
    pub closed spec fn inputs(&self) -> Seq<Seq<T>> {
        self.inputs@
    }

    /// The sample that pads a chunk flushed at an end of input: the value `T::default()`
    /// gave when the resampler was built.
    pub closed spec fn silence(&self) -> T {
        self.silence
    }

    /// The FFT resampler sees the input as it was read: the chunks handed to it, one after
    /// the other, and then the samples waiting for the next chunk, are exactly the samples
    /// read from the inner stream; and for each chunk it read the chunk's samples, followed
    /// by silence only for a chunk flushed at an end of input.
    pub proof fn lemma_chunks_cut_the_input(&self)
        requires
            self.wf(),
        ensures
            chunk_samples(self.chunks()) + self.pending_input() == self.read(),
            self.inputs().len() == self.chunks().len(),
            forall|i: int| 0 <= i < self.chunks().len() ==> chunk_read_as(
                #[trigger] self.chunks()[i],
                self.inputs()[i],
                self.silence(),
            ),
    {
    }

    /// Every sample the FFT resampler has produced so far, in order.
    pub closed spec fn produced(&self) -> Seq<T> {
        self.produced@
    }

    /// Every sample handed to a caller so far, in order.
    pub closed spec fn delivered(&self) -> Seq<T> {
        self.delivered@
    }

    /// Nothing is lost and nothing is handed out twice: the samples produced so far are
    /// exactly those handed to callers, in order, followed by those still waiting, however
    /// the callers' buffers were sized.
    pub proof fn lemma_produced_is_delivered_then_pending(&self)
        requires
            self.wf(),
        ensures
            self.produced() == self.delivered() + self.pending_output(),
            self.delivered().is_prefix_of(self.produced()),
    {
        assert(self.produced@.subrange(0, self.delivered@.len() as int) =~= self.delivered@);
    }

    /// Samples read from the inner stream and waiting for the next resampling.
    pub closed spec fn pending_input(&self) -> Seq<T> {
        self.input_buffer@.subrange(0, self.input_buffer_end as int)
    }

    /// Resampled samples not yet handed to a caller, oldest first.
    pub closed spec fn pending_output(&self) -> Seq<T> {
        self.output_buffer@.subrange(self.output_buffer_start as int, self.output_buffer_end as int)
    }

    /// The inner input stream.
    pub closed spec fn input(&self) -> I {
        self.input_stream
    }

    /// The inner stream has answered `EndOfInput`, and no sample read from it is left to
    /// resample or to hand out.
    pub open spec fn at_end(&self) -> bool {
        &&& has_ended(self.input().answers())
        &&& self.pending_input().len() == 0
        &&& self.pending_output().len() == 0
    }
}

/// How a resampler with `pending` resampled samples left over from earlier calls answers
/// a read into a buffer (`before` and `after` the call): the leftovers come first, in
/// order; a buffer they fill is filled with them alone; and a read that delivers nothing
/// into a non-empty buffer means there were no leftovers.
pub open spec fn delivers_pending_first<T, E>(
    pending: Seq<T>,
    before: Seq<T>,
    after: Seq<T>,
    r: Result<NextSamplesResult, E>,
) -> bool {
    &&& r matches Ok(NextSamplesResult::Samples(n)) ==> {
        let m = if n < pending.len() { n as int } else { pending.len() as int };
        after.subrange(0, m) == pending.subrange(0, m)
    }
    &&& (r matches Ok(NextSamplesResult::Unavailable) || r matches Ok(NextSamplesResult::EndOfInput)) ==> (
    before.len() > 0 ==> pending.len() == 0)
    &&& (0 < before.len() && before.len() <= pending.len()) ==> r == Ok::<NextSamplesResult, E>(
        NextSamplesResult::Samples(before.len() as usize),
    )
}

/// `n` copies of `value`.
pub(crate) fn filled<T: Copy>(value: T, n: usize) -> (r: Vec<T>)
    ensures
        r@ == Seq::new(n as nat, |i: int| value),
{
    let mut r: Vec<T> = Vec::new();
    let mut i: usize = 0;
    while i < n
        invariant
            i <= n,
            r@ == Seq::new(i as nat, |j: int| value),
        decreases n - i,
    {
        r.push(value);
        i = i + 1;
        assert(r@ =~= Seq::new(i as nat, |j: int| value));
    }
    r
}

impl<T: Copy + Default + rubato::Sample, I: AudioInputStream<T>, const TARGET_SAMPLE_RATE: usize>
    Resampler<T, I, TARGET_SAMPLE_RATE> {

    /// Create a new resampler from the given input stream.
    ///
    /// Fails when the input's sample rate or the target sample rate is zero.
    pub fn new(input_stream: I) -> (r: Result<Self, ResamplerConstructionError>)
        requires
            input_stream.spec_sample_rate() <= u32::MAX,
            TARGET_SAMPLE_RATE <= u32::MAX,
        ensures
            r is Ok <==> (input_stream.spec_sample_rate() > 0 && TARGET_SAMPLE_RATE > 0),
            r matches Ok(rs) ==> {
                &&& rs.wf()
                &&& rs.input() == input_stream
                &&& rs.pending_input().len() == 0
                &&& rs.pending_output().len() == 0
            },
    {
        let resampler = match rubato_fft_new::<T>(
            input_stream.sample_rate(),
            TARGET_SAMPLE_RATE,
            RESAMPLER_CHUNK_SIZE,
            1,
            rubato::FixedSync::Input,
        ) {
            Ok(resampler) => resampler,
            Err(error) => return Err(ResamplerConstructionError::Rubato(error)),
        };
        let ghost delivered = input_stream.delivered();
        let silence = T::default();
        let input_buffer = filled(silence, rubato_input_frames_max(&resampler));
        let output_buffer = filled(T::default(), rubato_output_frames_max(&resampler));
        let r = Resampler {
            input_stream,
            resampler,
            input_buffer,
            input_buffer_end: 0,
            output_buffer,
            output_buffer_start: 0,
            output_buffer_end: 0,
            produced: Ghost(Seq::empty()),
            delivered: Ghost(Seq::empty()),
            read: Ghost(Seq::empty()),
            chunks: Ghost(Seq::empty()),
            read_before: Ghost(delivered),
            outputs: Ghost(Seq::empty()),
            inputs: Ghost(Seq::empty()),
            silence,
        };
        assert(delivered + r.read@ =~= delivered);
        assert(r.pending_input() =~= Seq::<T>::empty());
        assert(r.pending_output() =~= Seq::<T>::empty());
        Ok(r)
    }

    /// Drains the resampler output buffer into the provided buffer, as far as it fits,
    /// oldest sample first.
    ///
    /// Returns whether the output buffer is now fully drained, and the number of samples
    /// written (in both cases).
    fn drain_output_buffer(&mut self, buffer: &mut [T]) -> (r: (bool, usize))
        requires
            old(self).wf(),
        ensures
            final(self).wf(),
            r.0 == (final(self).pending_output().len() == 0),
            r.1 == if old(self).pending_output().len() < old(buffer)@.len() {
                old(self).pending_output().len()
            } else {
                old(buffer)@.len() as nat
            },
            final(buffer)@.len() == old(buffer)@.len(),
            final(buffer)@.subrange(0, r.1 as int) == old(self).pending_output().subrange(0, r.1 as int),
            final(buffer)@.subrange(r.1 as int, old(buffer)@.len() as int)
                == old(buffer)@.subrange(r.1 as int, old(buffer)@.len() as int),
            final(self).pending_output() == old(self).pending_output().subrange(
                r.1 as int,
                old(self).pending_output().len() as int,
            ),
            final(self).output_buffer_end == old(self).output_buffer_end,
            final(self).pending_input() == old(self).pending_input(),
            final(self).input_buffer@.len() == old(self).input_buffer@.len(),
            final(self).input_stream == old(self).input_stream,
            final(self).read_before == old(self).read_before,
            final(self).produced() == old(self).produced(),
            final(self).delivered() == old(self).delivered() + old(self).pending_output().subrange(0, r.1 as int),
            final(self).read() == old(self).read(),
            final(self).chunks() == old(self).chunks(),
            final(self).outputs() == old(self).outputs(),
            final(self).inputs() == old(self).inputs(),
    {
        let available_samples = self.output_buffer_end - self.output_buffer_start;
        let samples_to_write = if available_samples < buffer.len() { available_samples } else { buffer.len() };
        let start = self.output_buffer_start;
        let next_output_buffer_start = start + samples_to_write;

        let mut i: usize = 0;
        while i < samples_to_write
            invariant
                i <= samples_to_write,
                start + samples_to_write <= self.output_buffer.len(),
                samples_to_write <= buffer@.len(),
                buffer@.len() == old(buffer)@.len(),
                forall|j: int| 0 <= j < i ==> buffer@[j] == self.output_buffer@[start + j],
                forall|j: int| i <= j < buffer@.len() ==> buffer@[j] == old(buffer)@[j],
            decreases samples_to_write - i,
        {
            let sample = self.output_buffer[start + i];
            buffer[i] = sample;
            i = i + 1;
        }

        self.output_buffer_start = next_output_buffer_start;
        assert(buffer@.subrange(0, samples_to_write as int)
            =~= old(self).pending_output().subrange(0, samples_to_write as int));
        assert(buffer@.subrange(samples_to_write as int, buffer@.len() as int)
            =~= old(buffer)@.subrange(samples_to_write as int, old(buffer)@.len() as int));
        assert(self.pending_output() =~= old(self).pending_output().subrange(
            samples_to_write as int,
            old(self).pending_output().len() as int,
        ));
        proof {
            let drained = old(self).pending_output().subrange(0, samples_to_write as int);
            self.delivered@ = self.delivered@ + drained;
            assert(old(self).pending_output() =~= drained + self.pending_output());
            assert(self.produced@ =~= self.delivered@ + self.pending_output());
        }
        (self.output_buffer_start == self.output_buffer_end, samples_to_write)
    }

    /// Runs the FFT resampler on one chunk read from the start of the input buffer. For the
    /// final incomplete chunk (`flush`), the rest of the input buffer is first filled with
    /// silence, so that the resampler reads the samples waiting followed by silence.
    ///
    /// The samples the resampler took are removed from the input buffer (those it did
    /// not take stay, first), and the output buffer now holds what it wrote. Returns the
    /// number of input samples the resampler read and the number of samples it wrote.
    fn resample(&mut self, flush: bool) -> (r: Result<(usize, usize), ResamplerError<I::InputError>>)
        requires
            old(self).wf(),
            old(self).pending_output().len() == 0,
            !flush ==> old(self).input_buffer_end == old(self).input_buffer@.len(),
        ensures
            final(self).wf(),
            final(self).delivered() == old(self).delivered(),
            final(self).read() == old(self).read(),
            final(self).produced() == old(self).produced() + final(self).pending_output(),
            r matches Err(e) ==> !(e is InputStreamError),
            final(self).input_buffer@.len() == old(self).input_buffer@.len(),
            final(self).input_stream == old(self).input_stream,
            final(self).read_before == old(self).read_before,
            r matches Ok((read, written)) ==> {
                let taken = taken(read, old(self).pending_input().len());
                &&& read <= final(self).input_buffer@.len()
                &&& final(self).chunks() == old(self).chunks().push((old(self).pending_input().take(taken as int), flush))
                &&& final(self).inputs().len() == old(self).inputs().len() + 1
                &&& final(self).inputs().last().len() == read
                &&& final(self).pending_input() == old(self).pending_input().skip(taken as int)
                &&& written <= final(self).output_buffer@.len()
                &&& final(self).output_buffer_start == 0
                &&& final(self).output_buffer_end == written
                &&& final(self).outputs() == old(self).outputs().push(final(self).pending_output())
            },
            r is Err ==> {
                &&& final(self).chunks() == old(self).chunks()
                &&& final(self).inputs() == old(self).inputs()
                &&& final(self).outputs() == old(self).outputs()
                &&& final(self).pending_input() == old(self).pending_input()
            },
            !flush ==> (r matches Ok((read, _)) ==> final(self).inputs().last() == old(self).pending_input().take(read as int)),
    {
        let end = self.input_buffer_end;
        let len = self.input_buffer.len();

        /* The rest of a final incomplete chunk is silence */
        let mut i: usize = end;
        while i < len
            invariant
                end <= i <= len,
                len == self.input_buffer@.len(),
                self.input_buffer@.subrange(0, end as int) == old(self).input_buffer@.subrange(0, end as int),
                self.input_buffer_end == end,
                forall|k: int| end <= k < i ==> #[trigger] self.input_buffer@[k] == self.silence,
                self.wf(),
                self.pending_input() == old(self).pending_input(),
                *self == (Resampler { input_buffer: self.input_buffer, ..*old(self) }),
            decreases len - i,
        {
            self.input_buffer.set(i, self.silence);
            i = i + 1;
            assert(self.pending_input() =~= old(self).pending_input());
        }
        assert(self.pending_input() == old(self).pending_input());

        let (read, frames_written) = rubato_process_into_buffer(
            &mut self.resampler,
            &self.input_buffer,
            &mut self.output_buffer,
        )?;
        let taken = if read < end { read } else { end };
        let ghost handed = self.input_buffer@.take(read as int);
        let ghost fed = self.pending_input().take(taken as int);
        let ghost waiting = self.pending_input();
        assert(handed.take(taken as int) =~= fed);

        /* Keep the samples the resampler did not take, first */
        let rest = end - taken;
        let mut j: usize = 0;
        let ghost pre = *self;
        assert(pre.inputs@ == old(self).inputs@ && pre.chunks@ == old(self).chunks@);
        while j < rest
            invariant
                *self == (Resampler { input_buffer: self.input_buffer, ..pre }),
                rest == end - taken,
                taken <= end,
                end <= self.input_buffer@.len(),
                j <= rest,
                waiting.len() == end,
                forall|k: int| 0 <= k < j ==> self.input_buffer@[k] == waiting[taken + k],
                forall|k: int| j <= k < end ==> self.input_buffer@[k] == #[trigger] waiting[k],
                self.input_buffer@.len() == len,
            decreases rest - j,
        {
            let v = self.input_buffer[taken + j];
            self.input_buffer.set(j, v);
            j = j + 1;
        }
        self.input_buffer_end = rest;
        proof {
            assert(self.pending_input() =~= waiting.skip(taken as int));
            assert(waiting =~= fed + self.pending_input());
            let chunks = self.chunks@;
            let inputs = self.inputs@;
            self.chunks@ = chunks.push((fed, flush));
            self.inputs@ = inputs.push(handed);
            assert(self.chunks@.drop_last() =~= chunks);
            assert(chunk_samples(self.chunks@) + self.pending_input() =~= chunk_samples(chunks) + fed
                + self.pending_input());
            assert(waiting == old(self).pending_input());
            assert(chunk_samples(chunks) + fed + self.pending_input() =~= chunk_samples(chunks) + waiting);
            assert(handed.len() == read);
            assert(fed.len() == taken);
            if !flush {
                assert(handed =~= fed);
            }
            if read > end {
                assert(handed =~= fed + Seq::new((read - end) as nat, |k: int| self.silence));
            } else {
                assert(handed =~= fed);
                assert(fed + Seq::new(0nat, |k: int| self.silence) =~= fed);
            }
            assert(chunk_read_as((fed, flush), handed, self.silence));
            assert(self.chunks@[chunks.len() as int] == (fed, flush));
            assert(self.inputs@[chunks.len() as int] == handed);
            assert forall|i: int| 0 <= i < self.chunks@.len() implies chunk_read_as(
                #[trigger] self.chunks@[i],
                self.inputs@[i],
                self.silence,
            ) by {
                if i < chunks.len() {
                    assert(self.chunks@[i] == chunks[i]);
                    assert(self.inputs@[i] == inputs[i]);
                }
            }
        }

        /* Fill output buffer */
        self.output_buffer_start = 0;
        self.output_buffer_end = frames_written;
        proof {
            let written = self.output_buffer@.take(frames_written as int);
            assert(written =~= self.pending_output());
            let outputs = self.outputs@;
            self.produced@ = self.produced@ + written;
            self.outputs@ = outputs.push(written);
            assert(self.outputs@.drop_last() =~= outputs);
        }
        Ok((read, frames_written))
    }

    /// Call the FFT resampler with the input / output buffers.
    ///
    /// When calling this function, the output buffer must be empty (it's content will be replaced)
    /// and the input buffer shall be filled (it's content will be read).
    /// Returns the number of input samples the resampler read and of samples it wrote.
    fn resample_buffers(&mut self) -> (r: Result<(usize, usize), ResamplerError<I::InputError>>)
        requires
            old(self).wf(),
            old(self).pending_output().len() == 0,
            old(self).input_buffer_end == old(self).input_buffer@.len(),
        ensures
            final(self).wf(),
            final(self).delivered() == old(self).delivered(),
            final(self).read() == old(self).read(),
            final(self).produced() == old(self).produced() + final(self).pending_output(),
            r matches Err(e) ==> !(e is InputStreamError),
            final(self).input_buffer@.len() == old(self).input_buffer@.len(),
            final(self).input_stream == old(self).input_stream,
            final(self).read_before == old(self).read_before,
            r matches Ok((read, written)) ==> {
                let taken = taken(read, old(self).pending_input().len());
                &&& read <= final(self).input_buffer@.len()
                &&& final(self).chunks() == old(self).chunks().push((old(self).pending_input().take(taken as int), false))
                &&& final(self).inputs().len() == old(self).inputs().len() + 1
                &&& final(self).inputs().last().len() == read
                &&& final(self).pending_input() == old(self).pending_input().skip(taken as int)
                &&& written <= final(self).output_buffer@.len()
                &&& final(self).output_buffer_start == 0
                &&& final(self).output_buffer_end == written
                &&& final(self).outputs() == old(self).outputs().push(final(self).pending_output())
            },
            r is Err ==> {
                &&& final(self).chunks() == old(self).chunks()
                &&& final(self).inputs() == old(self).inputs()
                &&& final(self).outputs() == old(self).outputs()
                &&& final(self).pending_input() == old(self).pending_input()
            },
            r matches Ok((read, _)) ==> final(self).inputs().last() == old(self).pending_input().take(read as int),
    {
        self.resample(false)
    }

    /// Call the FFT resampler with the incomplete input buffer: it reads the samples
    /// waiting, then silence.
    ///
    /// This shall only be used when the underlying audio input returned end of input,
    /// and we still have frames to process.
    /// Returns the number of input samples the resampler read and of samples it wrote.
    fn resample_final_frames(&mut self) -> (r: Result<(usize, usize), ResamplerError<I::InputError>>)
        requires
            old(self).wf(),
            old(self).pending_output().len() == 0,
        ensures
            final(self).wf(),
            final(self).delivered() == old(self).delivered(),
            final(self).read() == old(self).read(),
            final(self).produced() == old(self).produced() + final(self).pending_output(),
            r matches Err(e) ==> !(e is InputStreamError),
            final(self).input_buffer@.len() == old(self).input_buffer@.len(),
            final(self).input_stream == old(self).input_stream,
            final(self).read_before == old(self).read_before,
            r matches Ok((read, written)) ==> {
                let taken = taken(read, old(self).pending_input().len());
                &&& read <= final(self).input_buffer@.len()
                &&& final(self).chunks() == old(self).chunks().push((old(self).pending_input().take(taken as int), true))
                &&& final(self).inputs().len() == old(self).inputs().len() + 1
                &&& final(self).inputs().last().len() == read
                &&& final(self).pending_input() == old(self).pending_input().skip(taken as int)
                &&& written <= final(self).output_buffer@.len()
                &&& final(self).output_buffer_start == 0
                &&& final(self).output_buffer_end == written
                &&& final(self).outputs() == old(self).outputs().push(final(self).pending_output())
            },
            r is Err ==> {
                &&& final(self).chunks() == old(self).chunks()
                &&& final(self).inputs() == old(self).inputs()
                &&& final(self).outputs() == old(self).outputs()
                &&& final(self).pending_input() == old(self).pending_input()
            },
    {
        self.resample(true)
    }
}

} // verus!

verus! {

impl<T: Copy + Default + rubato::Sample, I: AudioInputStream<T>, const TARGET_SAMPLE_RATE: usize>
    Resampler<T, I, TARGET_SAMPLE_RATE> {
    /// The sample rate of the resampled output.
    pub fn sample_rate(&self) -> (r: usize)
        ensures
            r == TARGET_SAMPLE_RATE,
    {
        TARGET_SAMPLE_RATE
    }

    /// Fills the buffer with resampled samples: first those left over from the previous
    /// call, then, as long as room is left, samples resampled from chunks read from the
    /// inner stream. Returns as soon as the buffer is full, or the inner stream has
    /// nothing more for now (`Unavailable`) or ever (`EndOfInput`, after the last,
    /// incomplete chunk has been resampled and delivered).
    ///
    /// This is the resampler's side of [`AudioInputStream::next_samples`]: it keeps
    /// that method's contract.
    #[verifier::rlimit(40)]
    pub fn next_samples(&mut self, buffer: &mut [T]) -> (r: Result<NextSamplesResult, ResamplerError<I::InputError>>)
        requires
            old(self).wf(),
        ensures
            next_samples_contract(old(buffer)@, final(buffer)@, r),
            final(self).wf(),
            delivers_pending_first(old(self).pending_output(), old(buffer)@, final(buffer)@, r),
            (0 < old(buffer)@.len() && old(buffer)@.len() <= old(self).pending_output().len()) ==> {
                &&& final(self).pending_output() == old(self).pending_output().subrange(
                    old(buffer)@.len() as int,
                    old(self).pending_output().len() as int,
                )
                &&& final(self).pending_input() == old(self).pending_input()
                &&& final(self).input() == old(self).input()
            },
            old(self).produced().is_prefix_of(final(self).produced()),
            old(self).read().is_prefix_of(final(self).read()),
            old(self).chunks().is_prefix_of(final(self).chunks()),
            old(self).outputs().is_prefix_of(final(self).outputs()),
            r matches Ok(NextSamplesResult::EndOfInput) ==> final(self).delivered() == joined(final(self).outputs()),
            match r {
                Ok(NextSamplesResult::Samples(n)) => final(self).delivered() == old(self).delivered()
                    + final(buffer)@.subrange(0, n as int),
                Ok(_) => final(self).delivered() == old(self).delivered(),
                Err(_) => true,
            },
            r matches Ok(NextSamplesResult::EndOfInput) ==> {
                &&& final(self).pending_input().len() == 0
                &&& final(self).pending_output().len() == 0
            },
            final(self).read_before() == old(self).read_before(),
            old(self).input().answers().len() <= final(self).input().answers().len(),
            final(self).input().answers().subrange(0, old(self).input().answers().len() as int) == old(self).input().answers(),
            r matches Ok(NextSamplesResult::Unavailable) ==> {
                &&& old(self).input().answers().len() < final(self).input().answers().len()
                &&& {
                    ||| final(self).input().answers().last() matches Ok(NextSamplesResult::Unavailable)
                    ||| final(self).input().answers().len() == old(self).input().answers().len() + usize::MAX
                }
            },
            r matches Ok(NextSamplesResult::EndOfInput) ==> {
                &&& old(self).input().answers().len() < final(self).input().answers().len()
                &&& final(self).input().answers().last() matches Ok(NextSamplesResult::EndOfInput)
            },
            r matches Err(ResamplerError::InputStreamError(e)) ==> {
                &&& old(self).input().answers().len() < final(self).input().answers().len()
                &&& final(self).input().answers().last() == Err::<NextSamplesResult, I::InputError>(e)
            },
            r matches Ok(NextSamplesResult::EndOfInput) ==> final(self).at_end(),
            forall|i: int|
                old(self).input().answers().len() <= i < final(self).input().answers().len() - 1 ==> {
                    ||| #[trigger] final(self).input().answers()[i] matches Ok(NextSamplesResult::Samples(_))
                    ||| final(self).input().answers()[i] matches Ok(NextSamplesResult::EndOfInput)
                },
            old(self).input().answers().len() < final(self).input().answers().len() ==> match final(self).input().answers().last() {
                Err(e) => r == Err::<NextSamplesResult, ResamplerError<I::InputError>>(
                    ResamplerError::InputStreamError(e),
                ),
                Ok(NextSamplesResult::Unavailable) => r matches Ok(NextSamplesResult::Unavailable) || r matches Ok(
                    NextSamplesResult::Samples(_),
                ),
                _ => true,
            },
            old(self).at_end() && old(buffer)@.len() > 0 ==> r matches Ok(NextSamplesResult::EndOfInput),
            old(self).at_end() ==> final(self).at_end(),
    {
        let ghost d0 = self.delivered@;
        let ghost p0 = self.produced@;
        let ghost pending = self.pending_output();
        let ghost mut first = true;
        let len = buffer.len();
        let mut written_sample_count: usize = 0;

        /* Each round makes progress unless the resampler produced nothing; the bound on the
        number of rounds is only reached after usize::MAX rounds without completing. */
        let mut rounds: usize = usize::MAX;
        let ghost answers0 = self.input_stream.answers();
        let ghost stuck = self.at_end();
        assert(answers0.subrange(0, answers0.len() as int) =~= answers0);

        /* Loop while we have available samples */
        loop
            invariant
                self.wf(),
                len == old(buffer)@.len(),
                buffer@.len() == len,
                written_sample_count <= len,
                buffer@.subrange(written_sample_count as int, len as int)
                    == old(buffer)@.subrange(written_sample_count as int, len as int),
                old(self).wf(),
                answers0 == old(self).input_stream.answers(),
                self.read_before == old(self).read_before,
                self.input_stream.answers().len() == answers0.len() + (usize::MAX - rounds),
                self.input_stream.answers().subrange(0, answers0.len() as int) == answers0,
                stuck == old(self).at_end(),
                stuck ==> {
                    &&& rounds == usize::MAX
                    &&& written_sample_count == 0
                    &&& self.at_end()
                },
                pending == old(self).pending_output(),
                d0 == old(self).delivered@ && p0 == old(self).produced@,
                old(self).read@.is_prefix_of(self.read@) && old(self).chunks@.is_prefix_of(self.chunks@),
                old(self).outputs@.is_prefix_of(self.outputs@),
                forall|i: int|
                    answers0.len() <= i < self.input_stream.answers().len() ==> {
                        ||| #[trigger] self.input_stream.answers()[i] matches Ok(NextSamplesResult::Samples(_))
                        ||| self.input_stream.answers()[i] matches Ok(NextSamplesResult::EndOfInput)
                    },
                self.delivered@ == d0 + buffer@.subrange(0, written_sample_count as int),
                p0.is_prefix_of(self.produced@),
                first ==> {
                    &&& written_sample_count == 0
                    &&& self.pending_output() == pending
                    &&& rounds == usize::MAX
                    &&& self.input_stream == old(self).input_stream
                    &&& self.pending_input() == old(self).pending_input()
                },
                !first ==> pending.len() <= written_sample_count,
                !first ==> (written_sample_count < len || len == 0),
                !first ==> buffer@.subrange(0, pending.len() as int) == pending,
            decreases rounds,
        {
            if rounds == 0 {
                assert(!first);
                if written_sample_count == 0 {
                    assert(buffer@ =~= buffer@.subrange(0, len as int));
                    assert(old(buffer)@ =~= old(buffer)@.subrange(0, len as int));
                    assert(buffer@ =~= old(buffer)@);
                    return Ok(NextSamplesResult::Unavailable);
                } else {
                    assert(pending.subrange(0, pending.len() as int) =~= pending);
                    return Ok(NextSamplesResult::Samples(written_sample_count));
                }
            }
            rounds = rounds - 1;

            if self.output_buffer_end > 0 {
                /* First, attempt to empty the output buffer */
                let ghost buffer_before = buffer@;
                let ghost pending_now = self.pending_output();
                let ghost delivered_before = self.delivered@;
                let (head, tail) = buffer.split_at_mut(written_sample_count);
                let ghost head_before = head@;
                let (_, frames_written) = self.drain_output_buffer(tail);
                proof {
                    assert(final(head)@ == head_before);
                }
                let ghost w = written_sample_count;
                written_sample_count = written_sample_count + frames_written;
                proof {
                    let tail_after = final(tail)@;
                    assert(buffer@ == head_before + tail_after);
                    assert(head_before == buffer_before.subrange(0, w as int));
                    assert forall|k: int| written_sample_count <= k < len implies buffer@[k] == old(buffer)@[k] by {
                        assert(buffer@[k] == tail_after[k - w]);
                        assert(tail_after.subrange(frames_written as int, tail_after.len() as int)[k - w - frames_written]
                            == tail_after[k - w]);
                        assert(buffer_before.subrange(w as int, len as int)[k - w] == buffer_before[k]);
                        assert(old(buffer)@.subrange(w as int, len as int)[k - w] == old(buffer)@[k]);
                    }
                    assert(buffer@.subrange(written_sample_count as int, len as int)
                        =~= old(buffer)@.subrange(written_sample_count as int, len as int));
                    assert forall|k: int| 0 <= k < w implies buffer@[k] == buffer_before[k] by {
                        assert(buffer@[k] == head_before[k]);
                    }
                    assert forall|k: int| w <= k < written_sample_count implies buffer@[k] == pending_now[k - w] by {
                        assert(buffer@[k] == tail_after[k - w]);
                        assert(tail_after.subrange(0, frames_written as int)[k - w] == tail_after[k - w]);
                        assert(pending_now.subrange(0, frames_written as int)[k - w] == pending_now[k - w]);
                    }
                    assert(buffer@.subrange(0, written_sample_count as int) =~= buffer_before.subrange(0, w as int)
                        + pending_now.subrange(0, frames_written as int));
                    assert(self.delivered@ =~= d0 + buffer@.subrange(0, written_sample_count as int));
                    if first {
                        assert(buffer@.subrange(0, frames_written as int) =~= pending.subrange(0, frames_written as int));
                    } else {
                        assert(buffer@.subrange(0, pending.len() as int) =~= buffer_before.subrange(0, pending.len() as int));
                    }
                }

                if written_sample_count == len {
                    proof {
                        if !first {
                            assert(pending.len() <= w);
                            assert(buffer@.subrange(0, pending.len() as int) =~= pending);
                            assert(pending.subrange(0, pending.len() as int) =~= pending);
                        } else {
                            assert(w == 0);
                            assert(buffer@.subrange(0, written_sample_count as int)
                                =~= pending.subrange(0, written_sample_count as int));
                        }
                    }
                    /* buffer full, return */
                    return Ok(NextSamplesResult::Samples(written_sample_count));
                }
            } else {
                assert(self.pending_output().len() == 0);
            }
            assert(self.pending_output().len() == 0);
            proof {
                if first {
                    assert(buffer@.subrange(0, pending.len() as int) =~= pending);
                }
                first = false;
            }

            /* Ask for more samples for the next resampling */
            let end = self.input_buffer_end;
            let input_len = self.input_buffer.len();
            let ghost input_before = self.input_buffer@;
            let (input_head, input_tail) = self.input_buffer.as_mut_slice().split_at_mut(end);
            let ghost input_head_before = input_head@;
            let res = self.input_stream.next_samples(input_tail);
            proof {
                assert(final(input_head)@ == input_head_before);
                assert(self.input_buffer@ == input_head_before + final(input_tail)@);
                assert(self.input_buffer@.subrange(0, end as int) =~= input_before.subrange(0, end as int));
            }
            match res {
                Err(error) => return Err(ResamplerError::InputStreamError(error)),
                Ok(NextSamplesResult::Samples(samples)) => {
                    self.input_buffer_end = end + samples;
                    proof {
                        let fresh = self.input_buffer@.subrange(end as int, end + samples);
                        let r = self.read@;
                        self.read@ = r + fresh;
                        assert(fresh =~= final(input_tail)@.take(samples as int));
                        assert(self.input_stream.delivered() =~= self.read_before@ + self.read@);
                        assert(self.pending_input() =~= input_before.subrange(0, end as int) + fresh);
                        assert(chunk_samples(self.chunks@) + self.pending_input() =~= r + fresh);
                    }
                    if self.input_buffer_end < input_len {
                        /* Not enough for resampling, ask for more */
                        continue;
                    }
                },
                Ok(NextSamplesResult::Unavailable) => {
                    if written_sample_count == 0 {
                        assert(buffer@ =~= buffer@.subrange(0, len as int));
                        assert(old(buffer)@ =~= old(buffer)@.subrange(0, len as int));
                        assert(buffer@ =~= old(buffer)@);
                        return Ok(NextSamplesResult::Unavailable);
                    } else {
                        assert(pending.subrange(0, pending.len() as int) =~= pending);
                        return Ok(NextSamplesResult::Samples(written_sample_count));
                    }
                },
                Ok(NextSamplesResult::EndOfInput) => {
                    if self.input_buffer_end > 0 {
                        self.resample_final_frames()?;
                        continue;
                    } else {
                        assert(self.pending_input() =~= Seq::<T>::empty());
                        if written_sample_count == 0 {
                            assert(buffer@ =~= buffer@.subrange(0, len as int));
                            assert(old(buffer)@ =~= old(buffer)@.subrange(0, len as int));
                            assert(buffer@ =~= old(buffer)@);
                            return Ok(NextSamplesResult::EndOfInput);
                        } else {
                            assert(pending.subrange(0, pending.len() as int) =~= pending);
                            return Ok(NextSamplesResult::Samples(written_sample_count));
                        }
                    }
                },
            }

            /* We both emptied the output buffer and filled the input buffer */
            /* We can ask for resampling */
            self.resample_buffers()?;

            /* Next loop iteration will start sending the output buffer, then resample again, etc */
        }
    }
}

} // verus!
