//! Cuts an audio input into overlapping windows of samples, one window per hop.
//!
//! Each complete window is handed out as a [`SampleWindow`]; turning it into a spectrum
//! (windowing function and Fourier transform) is floating-point work done by the caller.
use vstd::prelude::*;
use crate::input_stream::{AudioInputStream, NextSamplesResult, has_ended, next_samples_contract};

verus! {

/// Errors when constructing a [`FrameExtractor`].
#[derive(Debug, Clone, Copy, PartialEq, Eq, Structural)]
pub enum FrameExtractorConstructionError {
    /// The input does not deliver samples at the rate the extractor is built for.
    SampleRateMismatch { expected: usize, found: usize },
}

/// Errors when pulling the next frame.
#[derive(Debug)]
pub enum FrameExtractorError<E> {
    /// The underlying input stream failed.
    AudioInput(E),
}

/// Result of asking for the next frame.
#[derive(Debug)]
pub enum NextFrameResult<F> {
    /// A new frame.
    Frame(F),
    /// The input has no samples yet; ask again later.
    Unavailable,
    /// The input has ended.
    EndOfInput,
}

/// One complete window of samples, with its position in the stream of frames.
#[derive(Debug)]
pub struct SampleWindow<T> {
    /// Number of frames produced before this one.
    pub index: usize,
    /// The `WINDOW_SIZE` samples of the window, oldest first.
    pub samples: Vec<T>,
}

/// Structure to read a sound input and cut it into a sliding window over its samples.
///
/// All params are const generics, so that a hard type alias can be made
/// and every other part uses the same config.
pub struct FrameExtractor<T, I, const SAMPLE_RATE: usize, const WINDOW_SIZE: usize, const HOP: usize> {
    /// Input stream that produces samples at the given sample rate.
    input_stream: I,
    /// Sliding window over the audio samples; only `0..sample_window_end` is meaningful.
    sample_window: Vec<T>,
    /// Number of samples in the sample window.
    sample_window_end: usize,
    /// Tracker over the number of frames sent.
    next_frame_index: usize,
    /// Every sample read from the input so far, in order.
    history: Ghost<Seq<T>>,
    /// The samples the input stream had delivered before the extractor took it.
    delivered_before: Ghost<Seq<T>>,
}

/// Number of complete windows, `window` samples long and `hop` samples apart, that
/// fit in the first `consumed` samples of a stream.
pub open spec fn complete_windows(consumed: nat, window: nat, hop: nat) -> nat {
    if consumed < window || hop == 0 {
        0
    } else {
        ((consumed - window) as nat / hop + 1) as nat
    }
}

impl<T: Copy + Default, I: AudioInputStream<T>, const SAMPLE_RATE: usize, const WINDOW_SIZE: usize, const HOP: usize>
    FrameExtractor<T, I, SAMPLE_RATE, WINDOW_SIZE, HOP> {

    /// The samples of the window read so far, oldest first.
    pub closed spec fn pending(&self) -> Seq<T> {
        self.sample_window@.subrange(0, self.sample_window_end as int)
    }

    /// Number of frames handed out so far (the index of the next one).
    pub closed spec fn frames_emitted(&self) -> nat {
        self.next_frame_index as nat
    }

    /// Number of samples read from the input so far.
    pub closed spec fn consumed(&self) -> nat {
        self.history@.len()
    }

    /// Every sample read from the input so far, in order.
    pub closed spec fn history(&self) -> Seq<T> {
        self.history@
    }

    /// The samples the input stream had delivered before the extractor took it.
    pub closed spec fn delivered_before(&self) -> Seq<T> {
        self.delivered_before@
    }

    /// The samples the extractor has read are exactly those the input stream delivered
    /// since the extractor took it, in order.
    pub proof fn lemma_history_is_what_the_input_delivered(&self)
        requires
            self.wf(),
        ensures
            self.input().delivered() == self.delivered_before() + self.history(),
    {
    }

    /// The input stream the extractor reads from.
    pub closed spec fn input(&self) -> I {
        self.input_stream
    }

    /// Internal consistency of the extractor.
    pub closed spec fn wf(&self) -> bool {
        &&& HOP <= WINDOW_SIZE
        &&& self.sample_window@.len() == WINDOW_SIZE
        &&& self.sample_window_end <= WINDOW_SIZE
        &&& HOP > 0 ==> self.sample_window_end < WINDOW_SIZE
        &&& self.history@.len() == self.next_frame_index * HOP + self.sample_window_end
        &&& self.pending() == self.history@.subrange(self.next_frame_index * HOP, self.history@.len() as int)
        &&& self.next_frame_index > 0 ==> self.sample_window_end >= WINDOW_SIZE - HOP
        &&& self.input_stream.delivered() == self.delivered_before@ + self.history@
    }

    /// Create a new frame extractor reading from the given input stream.
    ///
    /// Fails when the input's sample rate is not `SAMPLE_RATE`.
    pub fn new(input_stream: I) -> (r: Result<Self, FrameExtractorConstructionError>)
        requires
            HOP <= WINDOW_SIZE,
        ensures
            match r {
                Ok(ex) => {
                    &&& ex.wf()
                    &&& ex.input() == input_stream
                    &&& ex.pending() == Seq::<T>::empty()
                    &&& ex.frames_emitted() == 0
                    &&& ex.consumed() == 0
                    &&& ex.delivered_before() == input_stream.delivered()
                    &&& input_stream.spec_sample_rate() == SAMPLE_RATE
                },
                Err(FrameExtractorConstructionError::SampleRateMismatch { expected, found }) => {
                    &&& expected == SAMPLE_RATE
                    &&& found == input_stream.spec_sample_rate()
                    &&& found != SAMPLE_RATE
                },
            },
    {
        let found = input_stream.sample_rate();
        if found != SAMPLE_RATE {
            return Err(FrameExtractorConstructionError::SampleRateMismatch { expected: SAMPLE_RATE, found });
        }
        let mut sample_window: Vec<T> = Vec::new();
        let mut i: usize = 0;
        while i < WINDOW_SIZE
            invariant
                i <= WINDOW_SIZE,
                sample_window@.len() == i,
            decreases WINDOW_SIZE - i,
        {
            sample_window.push(T::default());
            i = i + 1;
        }
        let ghost delivered = input_stream.delivered();
        let ex = FrameExtractor {
            input_stream,
            sample_window,
            sample_window_end: 0,
            next_frame_index: 0,
            history: Ghost(Seq::empty()),
            delivered_before: Ghost(delivered),
        };
        assert(0 * HOP == 0) by (nonlinear_arith);
        assert(ex.pending() =~= Seq::<T>::empty());
        assert(ex.history@.subrange(0, 0) =~= Seq::<T>::empty());
        assert(delivered + ex.history@ =~= delivered);
        Ok(ex)
    }

    /// Get the next frame of samples.
    ///
    /// This reads the underlying input stream until the sample window is full, hands out a
    /// copy of the full window, then slides the window by `HOP` samples.
    ///
    /// If the underlying source is unavailable or at the end of the input, the same result
    /// is propagated; the samples read until then stay in the window.
    pub fn next_frame(&mut self) -> (r: Result<NextFrameResult<SampleWindow<T>>, FrameExtractorError<I::InputError>>)
        requires
            old(self).wf(),
            old(self).frames_emitted() < usize::MAX,
        ensures
            final(self).wf(),
            old(self).history().is_prefix_of(final(self).history()),
            final(self).delivered_before() == old(self).delivered_before(),
            old(self).input().answers().len() < final(self).input().answers().len(),
            final(self).input().answers().subrange(0, old(self).input().answers().len() as int) == old(
                self,
            ).input().answers(),
            forall|i: int|
                old(self).input().answers().len() <= i < final(self).input().answers().len() - 1 ==> (
                #[trigger] final(self).input().answers()[i]) matches Ok(NextSamplesResult::Samples(_)),
            match r {
                Ok(NextFrameResult::Frame(_)) => final(self).input().answers().last() matches Ok(
                    NextSamplesResult::Samples(_),
                ),
                Ok(NextFrameResult::Unavailable) => final(self).input().answers().last() matches Ok(
                    NextSamplesResult::Unavailable,
                ),
                Ok(NextFrameResult::EndOfInput) => final(self).input().answers().last() matches Ok(
                    NextSamplesResult::EndOfInput,
                ),
                Err(FrameExtractorError::AudioInput(e)) => final(self).input().answers().last() == Err::<
                    NextSamplesResult,
                    I::InputError,
                >(e),
            },
            HOP > 0 && has_ended(old(self).input().answers()) ==> r matches Ok(NextFrameResult::EndOfInput),
            match r {
                Ok(NextFrameResult::Frame(w)) => {
                    &&& w.index == old(self).frames_emitted()
                    &&& w.samples@ == final(self).history().subrange(w.index * HOP, w.index * HOP + WINDOW_SIZE)
                    &&& w.samples@.len() == WINDOW_SIZE
                    &&& w.samples@.subrange(0, old(self).pending().len() as int) == old(self).pending()
                    &&& final(self).pending() == w.samples@.subrange(HOP as int, WINDOW_SIZE as int)
                    &&& final(self).frames_emitted() == old(self).frames_emitted() + 1
                    &&& final(self).consumed() == old(self).consumed() + WINDOW_SIZE - old(self).pending().len()
                },
                _ => {
                    &&& final(self).frames_emitted() == old(self).frames_emitted()
                    &&& old(self).pending().len() <= final(self).pending().len()
                    &&& final(self).pending().subrange(0, old(self).pending().len() as int) == old(self).pending()
                    &&& final(self).consumed() == old(self).consumed() + final(self).pending().len()
                        - old(self).pending().len()
                },
            },
    {
        let ghost start = self.pending();
        assert(self.input_stream.answers().subrange(0, self.input_stream.answers().len() as int)
            =~= self.input_stream.answers());
        loop
            invariant
                HOP <= WINDOW_SIZE,
                self.sample_window@.len() == WINDOW_SIZE,
                self.sample_window_end <= WINDOW_SIZE,
                HOP > 0 ==> self.sample_window_end < WINDOW_SIZE,
                start.len() <= self.sample_window_end,
                start == old(self).pending(),
                self.pending().subrange(0, start.len() as int) == start,
                self.next_frame_index == old(self).next_frame_index,
                self.next_frame_index < usize::MAX,
                self.history@.len() == old(self).history@.len() + self.sample_window_end - start.len(),
                old(self).history@.is_prefix_of(self.history@),
                self.pending() == self.history@.subrange(self.next_frame_index * HOP, self.history@.len() as int),
                old(self).wf(),
                self.delivered_before@ == old(self).delivered_before@,
                self.input_stream.delivered() == self.delivered_before@ + self.history@,
                old(self).input_stream.answers().len() <= self.input_stream.answers().len(),
                self.input_stream.answers().subrange(0, old(self).input_stream.answers().len() as int) == old(
                    self,
                ).input_stream.answers(),
                forall|i: int|
                    old(self).input_stream.answers().len() <= i < self.input_stream.answers().len() ==> (
                    #[trigger] self.input_stream.answers()[i]) matches Ok(NextSamplesResult::Samples(_)),
                HOP > 0 && has_ended(old(self).input_stream.answers()) ==> self.input_stream.answers() == old(
                    self,
                ).input_stream.answers(),
            decreases WINDOW_SIZE - self.sample_window_end,
        {
            let end = self.sample_window_end;
            let ghost before = self.sample_window@;
            let (head, tail) = self.sample_window.as_mut_slice().split_at_mut(end);
            let ghost head_before = head@;
            let ghost answers_before = self.input_stream.answers();
            let ghost delivered_before_read = self.input_stream.delivered();
            let ghost tail_before = tail@;
            let res = self.input_stream.next_samples(tail);
            proof {
                assert(final(head)@ == head_before);
                assert(self.sample_window@ == head_before + final(tail)@);
                assert(self.input_stream.answers().subrange(0, old(self).input_stream.answers().len() as int)
                    =~= answers_before.subrange(0, old(self).input_stream.answers().len() as int));
                if has_ended(old(self).input_stream.answers()) {
                    assert(has_ended(answers_before)) by {
                        let ended = Ok::<NextSamplesResult, I::InputError>(NextSamplesResult::EndOfInput);
                        let olds = old(self).input_stream.answers();
                        let j = choose|j: int| 0 <= j < olds.len() && #[trigger] olds[j] == ended;
                        assert(answers_before.subrange(0, olds.len() as int)[j] == answers_before[j]);
                        assert(answers_before[j] == ended);
                    }
                }
            }
            match res {
                Ok(NextSamplesResult::Samples(written_sample_count)) => {
                    assert(self.sample_window@.subrange(0, end as int) == before.subrange(0, end as int));
                    self.sample_window_end = end + written_sample_count;
                    proof {
                        let fresh = self.sample_window@.subrange(end as int, end + written_sample_count);
                        let h = self.history@;
                        self.history@ = h + fresh;
                        assert(fresh =~= final(tail)@.take(written_sample_count as int));
                        assert(self.input_stream.delivered() =~= self.delivered_before@ + self.history@);
                        assert(self.pending() =~= self.sample_window@.subrange(0, end as int) + fresh);
                        assert(self.history@.subrange(self.next_frame_index * HOP, self.history@.len() as int)
                            =~= h.subrange(self.next_frame_index * HOP, h.len() as int) + fresh);
                        assert(h =~= self.history@.subrange(0, h.len() as int));
                        assert(old(self).history@ =~= self.history@.subrange(0, old(self).history@.len() as int)) by {
                            assert(old(self).history@ =~= h.subrange(0, old(self).history@.len() as int));
                        }
                    }
                    assert(self.pending().subrange(0, start.len() as int) == start) by {
                        assert(self.pending().subrange(0, start.len() as int)
                            =~= self.sample_window@.subrange(0, end as int).subrange(0, start.len() as int));
                        assert(before.subrange(0, end as int).subrange(0, start.len() as int)
                            =~= before.subrange(0, end as int).subrange(0, start.len() as int));
                    }
                    if self.sample_window_end == WINDOW_SIZE {
                        /* We have enough samples: hand out the window, then slide it */
                        let samples = self.copy_window();
                        let index = self.next_frame_index;
                        let ghost h = self.history@;
                        assert(samples@ =~= h.subrange(index * HOP, h.len() as int)) by {
                            assert(self.pending() =~= self.sample_window@);
                        }
                        self.hop();
                        self.next_frame_index = index + 1;
                        assert((index + 1) * HOP == index * HOP + HOP) by (nonlinear_arith);
                        assert(self.pending() =~= h.subrange((index + 1) * HOP, h.len() as int));
                        assert(samples@.subrange(0, start.len() as int) =~= start);
                        return Ok(NextFrameResult::Frame(SampleWindow { index, samples }));
                    }
                },
                Ok(NextSamplesResult::Unavailable) => {
                    assert(self.sample_window@ =~= before);
                    return Ok(NextFrameResult::Unavailable);
                },
                Ok(NextSamplesResult::EndOfInput) => {
                    assert(self.sample_window@ =~= before);
                    return Ok(NextFrameResult::EndOfInput);
                },
                Err(error) => {
                    assert(self.sample_window@.subrange(0, end as int) =~= before.subrange(0, end as int));
                    return Err(FrameExtractorError::AudioInput(error));
                },
            }
        }
    }

    /// The frames handed out so far are exactly the complete windows, `HOP` samples
    /// apart, that fit in the samples read so far: none before `WINDOW_SIZE` samples,
    /// then one more every `HOP` samples. A tail shorter than a hop yields no frame.
    pub proof fn lemma_frames_are_complete_windows(&self)
        requires
            self.wf(),
            HOP > 0,
        ensures
            self.frames_emitted() == complete_windows(self.consumed(), WINDOW_SIZE as nat, HOP as nat),
    {
        let k = self.next_frame_index as int;
        let end = self.sample_window_end as int;
        let hop = HOP as int;
        let win = WINDOW_SIZE as int;
        if k > 0 {
            assert(k * hop >= hop) by (nonlinear_arith)
                requires
                    k > 0,
                    hop > 0,
            ;
            let q = k - 1;
            let rem = end + hop - win;
            assert(self.history@.len() - win == q * hop + rem) by (nonlinear_arith)
                requires
                    self.history@.len() == k * hop + end,
                    q == k - 1,
                    rem == end + hop - win,
            ;
            assert(0 <= rem < hop);
            vstd::arithmetic::div_mod::lemma_fundamental_div_mod_converse(
                self.history@.len() - win,
                hop,
                q,
                rem,
            );
            assert(self.history@.len() >= win);
            assert((self.history@.len() - win) as nat / (hop as nat) == q);
        } else {
            assert(k * hop == 0) by (nonlinear_arith)
                requires
                    k == 0,
            ;
            assert(self.history@.len() == end);
        }
    }

    /// The frames handed out so far are the complete windows that fit in the samples the
    /// input stream has delivered since the extractor took it; once the stream has ended
    /// and the extractor has answered `EndOfInput`, these are all its samples.
    pub proof fn lemma_frames_count_what_the_input_delivered(&self)
        requires
            self.wf(),
            HOP > 0,
        ensures
            self.frames_emitted() == complete_windows(
                (self.input().delivered().len() - self.delivered_before().len()) as nat,
                WINDOW_SIZE as nat,
                HOP as nat,
            ),
    {
        self.lemma_frames_are_complete_windows();
        self.lemma_history_is_what_the_input_delivered();
    }

    /// A copy of the full sample window.
    fn copy_window(&self) -> (r: Vec<T>)
        ensures
            r@ == self.sample_window@,
    {
        let mut r: Vec<T> = Vec::new();
        let n = self.sample_window.len();
        let mut i: usize = 0;
        while i < n
            invariant
                n == self.sample_window@.len(),
                i <= n,
                r@ == self.sample_window@.subrange(0, i as int),
            decreases n - i,
        {
            r.push(self.sample_window[i]);
            i = i + 1;
            assert(r@ =~= self.sample_window@.subrange(0, i as int));
        }
        assert(r@ =~= self.sample_window@);
        r
    }

    /// Performs a hop: moves the samples of the sample window `HOP` places to the left.
    fn hop(&mut self)
        requires
            HOP <= WINDOW_SIZE,
            old(self).sample_window@.len() == WINDOW_SIZE,
            old(self).sample_window_end == WINDOW_SIZE,
        ensures
            final(self).sample_window@.len() == WINDOW_SIZE,
            final(self).sample_window_end == WINDOW_SIZE - HOP,
            final(self).pending() == old(self).sample_window@.subrange(HOP as int, WINDOW_SIZE as int),
            final(self).next_frame_index == old(self).next_frame_index,
            final(self).history == old(self).history,
            final(self).delivered_before == old(self).delivered_before,
            final(self).input_stream == old(self).input_stream,
    {
        let ghost window_before = self.sample_window@;
        let n = WINDOW_SIZE - HOP;
        let mut i: usize = 0;
        while i < n
            invariant
                n == WINDOW_SIZE - HOP,
                HOP <= WINDOW_SIZE,
                i <= n,
                self.sample_window@.len() == WINDOW_SIZE,
                window_before.len() == WINDOW_SIZE,
                forall|j: int| 0 <= j < i ==> self.sample_window@[j] == window_before[j + HOP],
                forall|j: int| i <= j < WINDOW_SIZE ==> self.sample_window@[j] == window_before[j],
                self.sample_window_end == old(self).sample_window_end,
                self.next_frame_index == old(self).next_frame_index,
                self.history == old(self).history,
                self.delivered_before == old(self).delivered_before,
                self.input_stream == old(self).input_stream,
            decreases n - i,
        {
            let v = self.sample_window[i + HOP];
            self.sample_window.set(i, v);
            i = i + 1;
        }
        self.sample_window_end = n;
        assert(self.pending() =~= window_before.subrange(HOP as int, WINDOW_SIZE as int));
    }
}

} // verus!
