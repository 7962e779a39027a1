//! Keeps the last `BUFFER_SIZE` frames and exposes them as one contiguous window.
use vstd::prelude::*;
use crate::frame_extractor::NextFrameResult;

verus! {

/// The frame buffer allows to keep multiple extracted frames
/// and expose a sliding window over each frames.
///
/// The frames are stored twice, in a double ring buffer of `2 * BUFFER_SIZE` slots, so that
/// the window of the last `BUFFER_SIZE` frames is always one contiguous slice.
pub struct FrameBuffer<F, const BUFFER_SIZE: usize> {
    /// Double ring buffer for the frames; slot `i` and slot `i + BUFFER_SIZE` hold the same frame.
    double_ring_buffer: Vec<F>,
    /// Next slot to write in the double ring buffer.
    /// This also is the first index of the window slice in the double ring buffer.
    next_frame_slot: usize,
    /// The number of frames received, counted up to `BUFFER_SIZE`.
    frames_received: usize,
    /// The window the buffer started with.
    initial: Ghost<Seq<F>>,
    /// Every frame received, in order.
    received: Ghost<Seq<F>>,
}

/// Result of asking for the next window.
pub enum FrameWindowResult<'slice, F> {
    /// The window of the last `BUFFER_SIZE` frames, oldest first.
    Window(&'slice [F]),
    /// No new frame is available yet.
    Unavailable,
    /// The frame source has ended.
    EndOfInput,
}

/// The window after pushing `frames`, one at a time, into a window `window`: each push
/// drops the oldest frame and appends the new one.
pub open spec fn slide<F>(window: Seq<F>, frames: Seq<F>) -> Seq<F>
    decreases frames.len(),
{
    if frames.len() == 0 {
        window
    } else {
        slide(window, frames.drop_last()).drop_first().push(frames.last())
    }
}

/// After any number of pushes into a non-empty window, the window holds the latest
/// frames, oldest first: the frames pushed, preceded by the end of the starting window
/// when fewer frames than the window length were pushed.
pub proof fn lemma_window_is_latest_frames<F>(window: Seq<F>, frames: Seq<F>)
    requires
        window.len() > 0,
    ensures
        slide(window, frames) == (window + frames).subrange(
            frames.len() as int,
            (frames.len() + window.len()) as int,
        ),
    decreases frames.len(),
{
    if frames.len() > 0 {
        let prev = frames.drop_last();
        lemma_window_is_latest_frames(window, prev);
        let all = window + frames;
        let all_prev = window + prev;
        assert(all_prev =~= all.drop_last());
        assert(slide(window, frames) =~= all.subrange(frames.len() as int, (frames.len() + window.len()) as int));
    }
}

impl<F: Copy, const BUFFER_SIZE: usize> FrameBuffer<F, BUFFER_SIZE> {
    /// The last `BUFFER_SIZE` frames, oldest first.
    pub closed spec fn window(&self) -> Seq<F> {
        self.double_ring_buffer@.subrange(
            self.next_frame_slot as int,
            self.next_frame_slot + BUFFER_SIZE,
        )
    }

    /// The window the buffer started with.
    pub closed spec fn initial(&self) -> Seq<F> {
        self.initial@
    }

    /// Every frame received, in order.
    pub closed spec fn received(&self) -> Seq<F> {
        self.received@
    }

    /// However many calls brought them, the window holds the latest `BUFFER_SIZE` frames
    /// received, oldest first, preceded by the end of the starting window while fewer
    /// have been received; once `BUFFER_SIZE` frames have been received, it holds only
    /// received frames.
    pub proof fn lemma_window_holds_the_latest_frames(&self)
        requires
            self.wf(),
            BUFFER_SIZE > 0,
        ensures
            self.window() == (self.initial() + self.received()).subrange(
                self.received().len() as int,
                self.received().len() + BUFFER_SIZE,
            ),
            self.received().len() >= BUFFER_SIZE ==> self.window() == self.received().subrange(
                self.received().len() - BUFFER_SIZE,
                self.received().len() as int,
            ),
    {
        lemma_window_is_latest_frames(self.initial@, self.received@);
        if self.received@.len() >= BUFFER_SIZE {
            let n = self.received@.len();
            assert((self.initial@ + self.received@).subrange(n as int, n + BUFFER_SIZE) =~= self.received@.subrange(
                n - BUFFER_SIZE,
                n as int,
            ));
        }
    }

    /// Internal consistency of the buffer.
    pub closed spec fn wf(&self) -> bool {
        &&& self.initial@.len() == BUFFER_SIZE
        &&& self.window() == slide(self.initial@, self.received@)
        &&& self.frames_received == if self.received@.len() < BUFFER_SIZE {
            self.received@.len()
        } else {
            BUFFER_SIZE as nat
        }
        &&& self.double_ring_buffer@.len() == 2 * BUFFER_SIZE
        &&& 2 * BUFFER_SIZE <= usize::MAX
        &&& (BUFFER_SIZE > 0 ==> self.next_frame_slot < BUFFER_SIZE)
        &&& (BUFFER_SIZE == 0 ==> self.next_frame_slot == 0)
        &&& forall|i: int|
            0 <= i < BUFFER_SIZE ==> #[trigger] self.double_ring_buffer@[i]
                == self.double_ring_buffer@[i + BUFFER_SIZE]
    }

    /// Creates a buffer whose window holds `BUFFER_SIZE` copies of `zero`.
    pub fn new(zero: F) -> (r: Self)
        requires
            2 * BUFFER_SIZE <= usize::MAX,
        ensures
            r.wf(),
            r.window() == Seq::new(BUFFER_SIZE as nat, |i: int| zero),
            r.initial() == Seq::new(BUFFER_SIZE as nat, |i: int| zero),
            r.received().len() == 0,
    {
        let n = 2 * BUFFER_SIZE;
        let mut double_ring_buffer: Vec<F> = Vec::new();
        let mut i: usize = 0;
        while i < n
            invariant
                n == 2 * BUFFER_SIZE,
                i <= n,
                double_ring_buffer@ == Seq::new(i as nat, |j: int| zero),
            decreases n - i,
        {
            double_ring_buffer.push(zero);
            i = i + 1;
            assert(double_ring_buffer@ =~= Seq::new(i as nat, |j: int| zero));
        }
        let r = FrameBuffer {
            double_ring_buffer,
            next_frame_slot: 0,
            frames_received: 0,
            initial: Ghost(Seq::new(BUFFER_SIZE as nat, |i: int| zero)),
            received: Ghost(Seq::empty()),
        };
        assert(r.window() =~= Seq::new(BUFFER_SIZE as nat, |i: int| zero));
        r
    }

    /// Whether `BUFFER_SIZE` frames have been received, so that the window holds no frame
    /// of the starting window any more.
    pub fn is_full(&self) -> (r: bool)
        requires
            self.wf(),
        ensures
            r == (self.received().len() >= BUFFER_SIZE),
    {
        self.frames_received == BUFFER_SIZE
    }

    /// Takes the next result of the frame source. When it is a new frame, the window advances
    /// by one frame and is returned: the oldest frame leaves, the new frame comes last.
    /// Otherwise, the same result is propagated and the window stays as it is.
    pub fn next_window(&mut self, next_frame: NextFrameResult<F>) -> (r: FrameWindowResult<'_, F>)
        requires
            old(self).wf(),
            BUFFER_SIZE > 0,
        ensures
            final(self).wf(),
            final(self).initial() == old(self).initial(),
            match next_frame {
                NextFrameResult::Frame(frame) => {
                    &&& final(self).received() == old(self).received().push(frame)
                    &&& final(self).window() == old(self).window().drop_first().push(frame)
                    &&& r matches FrameWindowResult::Window(w) && w@ == final(self).window()
                },
                NextFrameResult::Unavailable => {
                    &&& final(self).received() == old(self).received()
                    &&& final(self).window() == old(self).window()
                    &&& r is Unavailable
                },
                NextFrameResult::EndOfInput => {
                    &&& final(self).received() == old(self).received()
                    &&& final(self).window() == old(self).window()
                    &&& r is EndOfInput
                },
            },
    {
        let next_frame = match next_frame {
            NextFrameResult::Unavailable => return FrameWindowResult::Unavailable,
            NextFrameResult::EndOfInput => return FrameWindowResult::EndOfInput,
            NextFrameResult::Frame(frame) => frame,
        };
        let ghost old_window = self.window();
        let slot = self.next_frame_slot;

        /* Store the frame at the next available pos and the mirrored position */
        self.double_ring_buffer.set(slot, next_frame);
        self.double_ring_buffer.set(slot + BUFFER_SIZE, next_frame);

        /* Bump the window position */
        self.next_frame_slot = (slot + 1) % BUFFER_SIZE;
        if self.frames_received < BUFFER_SIZE {
            self.frames_received = self.frames_received + 1;
        }
        proof {
            let received = self.received@;
            self.received@ = received.push(next_frame);
            assert(self.received@.drop_last() =~= received);
        }
        proof {
            if slot + 1 < BUFFER_SIZE {
                vstd::arithmetic::div_mod::lemma_small_mod((slot + 1) as nat, BUFFER_SIZE as nat);
            } else {
                vstd::arithmetic::div_mod::lemma_mod_self_0(BUFFER_SIZE as int);
            }
        }

        let ghost buf = self.double_ring_buffer@;
        proof {
            let expected = old_window.drop_first().push(next_frame);
            assert forall|k: int| 0 <= k < BUFFER_SIZE implies #[trigger] self.window()[k] == expected[k] by {
                if slot + 1 < BUFFER_SIZE {
                    assert(self.next_frame_slot == slot + 1);
                } else {
                    assert(self.next_frame_slot == 0);
                    if k < BUFFER_SIZE - 1 {
                        assert(buf[k] == buf[k + BUFFER_SIZE]);
                    }
                }
            }
            assert(self.window() =~= expected);
        }
        assert(self.wf());

        /* The full window is available at next_frame_slot..next_frame_slot + BUFFER_SIZE */
        let start = self.next_frame_slot;
        let window = vstd::slice::slice_subrange(self.double_ring_buffer.as_slice(), start, start + BUFFER_SIZE);
        FrameWindowResult::Window(window)
    }
}

} // verus!
