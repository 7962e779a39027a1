//! The abstraction over audio sources that the rest of the pipeline reads from.
use vstd::prelude::*;

verus! {

/// Possible results when samples are requested.
///
/// We can either receive some samples, or need to wait, or we have reached the end of the input.
#[derive(Debug, Clone, Copy, PartialEq, Eq, Structural)]
pub enum NextSamplesResult {
    /// Some samples have been returned into the provided buffer.
    ///
    /// The number of samples fed are given by the provided usize.
    Samples(usize),
    /// No samples are available yet, but some might be later.
    Unavailable,
    /// We have reached the end of the input.
    ///
    /// This variant only make sense for non-streaming inputs like files.
    EndOfInput,
}

/// What every implementation of [`AudioInputStream::next_samples`] promises about the
/// caller's buffer, before (`before`) and after (`after`) the call, and its result.
///
/// - the buffer keeps its length;
/// - `Samples(n)` reports at most the buffer's length, and at least one sample when the
///   buffer is not empty; the samples at `n` and after are left untouched;
/// - `Unavailable` and `EndOfInput` leave the buffer untouched.
pub open spec fn next_samples_contract<T, E>(
    before: Seq<T>,
    after: Seq<T>,
    r: Result<NextSamplesResult, E>,
) -> bool {
    &&& after.len() == before.len()
    &&& match r {
        Ok(NextSamplesResult::Samples(n)) => {
            &&& n <= before.len()
            &&& before.len() > 0 ==> n > 0
            &&& after.subrange(n as int, after.len() as int) == before.subrange(
                n as int,
                before.len() as int,
            )
        },
        Ok(_) => after == before,
        Err(_) => true,
    }
}

/// Whether a stream that gave the answers `answers` has reached its end.
pub open spec fn has_ended<E>(answers: Seq<Result<NextSamplesResult, E>>) -> bool {
    answers.contains(Ok(NextSamplesResult::EndOfInput))
}

/// The samples a stream has delivered, in order.
pub type SampleLog<T> = Seq<T>;

/// A stream's answers to its reads, in order.
pub type AnswerLog<E> = Seq<Result<NextSamplesResult, E>>;

/// An audio input stream is an abstraction over any audio sources.
/// The sources can be live audio, files, or even custom generated on the fly inputs.
///
/// The `AudioInputStream` trait allows the rest of the system to be abstract over
/// the input kind, and over the sample type `T`.
pub trait AudioInputStream<T> {
    /// The error an input can fail with.
    type InputError;

    /// The sample rate the input delivers its samples at.
    spec fn spec_sample_rate(&self) -> usize;

    /// Every sample the stream has delivered so far, in order.
    spec fn delivered(&self) -> SampleLog<T>;

    /// The stream's answers to every read so far, in order, errors included.
    spec fn answers(&self) -> AnswerLog<Self::InputError>;

    /// Get the sample rate of the audio input.
    fn sample_rate(&self) -> (r: usize)
        ensures
            r == self.spec_sample_rate(),
    ;

    /// Read the available samples of the audio input into the provided buffer.
    ///
    /// The samples read are delivered in order, the answer is logged, and a stream that
    /// has reached its end stays there.
    fn next_samples(&mut self, buffer: &mut [T]) -> (r: Result<NextSamplesResult, Self::InputError>)
        ensures
            next_samples_contract(old(buffer)@, final(buffer)@, r),
            final(self).answers() == old(self).answers().push(r),
            r matches Ok(NextSamplesResult::Samples(n)) ==> final(self).delivered() == old(self).delivered()
                + final(buffer)@.take(n as int),
            !(r matches Ok(NextSamplesResult::Samples(_))) ==> final(self).delivered() == old(self).delivered(),
            has_ended(old(self).answers()) && old(buffer)@.len() > 0 ==> r matches Ok(NextSamplesResult::EndOfInput),
            final(self).spec_sample_rate() == old(self).spec_sample_rate(),
    ;
}

} // verus!
