//! Per-frame training labels, and the on-disk format of a processed track.
//!
//! Layout per frame:
//!   mels:    `MEL_FREQ_COUNT` little-endian 32-bit floats (written here as their bit patterns)
//!   onsets:  `INSTRUMENT_COUNT` bytes (0 or 1)
//!   actives: `INSTRUMENT_COUNT` bytes (0 or 1)
//! No padding between frames.
use vstd::prelude::*;
use vstd::bytes::{spec_u32_from_le_bytes, spec_u32_to_le_bytes};
use crate::config::{FFT_PROCESSING_RATE, INSTRUMENT_COUNT, MEL_FREQ_COUNT, TIME_CHUNK_LENGTH};
use crate::drum::DrumClass;
use crate::midi::DrumHit;

verus! {

/// Bytes of one frame on disk.
pub const FRAME_BYTES: usize = MEL_FREQ_COUNT * 4 + INSTRUMENT_COUNT * 2;

/// Offset of the onset labels in a frame.
pub const ONSETS_OFFSET: usize = MEL_FREQ_COUNT * 4;

/// Offset of the active labels in a frame.
pub const ACTIVES_OFFSET: usize = ONSETS_OFFSET + INSTRUMENT_COUNT;

/// One frame of a processed track. The mel values are the bit patterns of 32-bit floats.
#[derive(Debug, Clone, Copy)]
pub struct Frame {
    pub mels: [u32; MEL_FREQ_COUNT],
    pub onsets: [u8; INSTRUMENT_COUNT],
    pub actives: [u8; INSTRUMENT_COUNT],
}

/// Round-half-up of `100 * numerator / denominator`: the frame (at `FFT_PROCESSING_RATE`
/// frames per second) nearest to a time of `numerator / denominator` seconds, a tie going
/// to the later frame.
pub open spec fn nearest_frame(numerator: nat, denominator: nat) -> nat
    recommends
        denominator > 0,
{
    ((2 * FFT_PROCESSING_RATE * numerator + denominator) as int / (2 * denominator) as int) as nat
}

/// The frame a hit falls on: the frame nearest to its exact time. A hit whose time has a
/// zero denominator (a file with zero ticks per beat) falls on no frame, nor does one whose
/// frame is beyond any index a frame count can reach.
pub open spec fn spec_hit_frame(hit: DrumHit) -> Option<nat> {
    if hit.time_denominator == 0 || nearest_frame(hit.time_numerator as nat, hit.time_denominator as nat)
        > u128::MAX {
        None
    } else {
        Some(nearest_frame(hit.time_numerator as nat, hit.time_denominator as nat))
    }
}

/// The frame a hit falls on, as `spec_hit_frame` defines it.
pub fn hit_frame(hit: &DrumHit) -> (r: Option<u128>)
    ensures
        match spec_hit_frame(*hit) {
            None => r is None,
            Some(f) => r == Some(f as u128),
        },
{
    if hit.time_denominator == 0 {
        return None;
    }
    let num = hit.time_numerator;
    let den = hit.time_denominator as u128;
    let rate = FFT_PROCESSING_RATE as u128;
    let q = num / den;
    let rem = num % den;
    let tail = (2 * rate * rem + den) / (2 * den);
    let ghost x = 2 * rate * rem + den;
    let ghost d = 2 * den;
    let ghost total = 2 * rate * num + den;
    proof {
        vstd::arithmetic::div_mod::lemma_fundamental_div_mod(num as int, den as int);
        vstd::arithmetic::div_mod::lemma_fundamental_div_mod(x, d);
        assert(total == d * (q * rate) + x) by (nonlinear_arith)
            requires
                num == den * q + rem,
                total == 2 * rate * num + den,
                x == 2 * rate * rem + den,
                d == 2 * den,
        ;
        assert(total == d * (q * rate + tail) + x % d) by (nonlinear_arith)
            requires
                total == d * (q * rate) + x,
                x == d * tail + x % d,
        ;
        vstd::arithmetic::div_mod::lemma_fundamental_div_mod_converse(total, d, q * rate + tail, x % d);
    }
    let scaled = match q.checked_mul(rate) {
        Some(v) => v,
        None => {
            assert(nearest_frame(num as nat, den as nat) >= q * rate);
            return None;
        },
    };
    match scaled.checked_add(tail) {
        Some(v) => Some(v),
        None => None,
    }
}

/// The hit starts instrument `c` at frame `f`.
pub open spec fn hit_marks_onset(hit: DrumHit, f: nat, c: nat) -> bool {
    &&& spec_hit_frame(hit) == Some(f)
    &&& hit.class.spec_index() == c
}

/// Instrument `c` counts as playing at frame `f` because of the hit: `f` is among the
/// `TIME_CHUNK_LENGTH` frames that start at the hit's frame.
pub open spec fn hit_marks_active(hit: DrumHit, f: nat, c: nat) -> bool {
    &&& spec_hit_frame(hit) matches Some(g) && g <= f < g + TIME_CHUNK_LENGTH
    &&& hit.class.spec_index() == c
}

/// Some hit starts instrument `c` at frame `f`.
pub open spec fn any_onset(hits: Seq<DrumHit>, f: nat, c: nat) -> bool
    decreases hits.len(),
{
    if hits.len() == 0 {
        false
    } else {
        any_onset(hits.drop_last(), f, c) || hit_marks_onset(hits.last(), f, c)
    }
}

/// Some hit makes instrument `c` count as playing at frame `f`.
pub open spec fn any_active(hits: Seq<DrumHit>, f: nat, c: nat) -> bool
    decreases hits.len(),
{
    if hits.len() == 0 {
        false
    } else {
        any_active(hits.drop_last(), f, c) || hit_marks_active(hits.last(), f, c)
    }
}

/// A label grid of `n_frames` rows, row `f` holding 1 for instrument `c` exactly when
/// `marked(f, c)`, else 0.
pub open spec fn is_label_grid(
    rows: Seq<[u8; INSTRUMENT_COUNT]>,
    n_frames: nat,
    marked: spec_fn(nat, nat) -> bool,
) -> bool {
    &&& rows.len() == n_frames
    &&& forall|f: int, c: int|
        0 <= f < n_frames && 0 <= c < INSTRUMENT_COUNT ==> #[trigger] rows[f]@[c] == if marked(
            f as nat,
            c as nat,
        ) {
            1u8
        } else {
            0u8
        }
}

/// Build onset + active label grids aligned to a given number of mel frames.
///
/// A hit marks an onset of its instrument at its frame, and the instrument as active for
/// `TIME_CHUNK_LENGTH` frames from there; hits and frames beyond the grid mark nothing.
pub fn build_labels(hits: &[DrumHit], n_frames: usize) -> (r: (
    Vec<[u8; INSTRUMENT_COUNT]>,
    Vec<[u8; INSTRUMENT_COUNT]>,
))
    ensures
        is_label_grid(r.0@, n_frames as nat, |f: nat, c: nat| any_onset(hits@, f, c)),
        is_label_grid(r.1@, n_frames as nat, |f: nat, c: nat| any_active(hits@, f, c)),
{
    let empty_row: [u8; INSTRUMENT_COUNT] = [0u8; INSTRUMENT_COUNT];
    let mut onsets: Vec<[u8; INSTRUMENT_COUNT]> = Vec::new();
    let mut actives: Vec<[u8; INSTRUMENT_COUNT]> = Vec::new();
    let mut f: usize = 0;
    while f < n_frames
        invariant
            f <= n_frames,
            onsets@.len() == f,
            actives@.len() == f,
            forall|k: int, c: int| 0 <= k < f && 0 <= c < INSTRUMENT_COUNT ==> #[trigger] onsets@[k]@[c] == 0u8,
            forall|k: int, c: int| 0 <= k < f && 0 <= c < INSTRUMENT_COUNT ==> #[trigger] actives@[k]@[c] == 0u8,
            forall|c: int| 0 <= c < INSTRUMENT_COUNT ==> #[trigger] empty_row@[c] == 0u8,
        decreases n_frames - f,
    {
        onsets.push(empty_row);
        actives.push(empty_row);
        f = f + 1;
    }

    let n_hits = hits.len();
    let mut i: usize = 0;
    while i < n_hits
        invariant
            n_hits == hits@.len(),
            i <= n_hits,
            is_label_grid(onsets@, n_frames as nat, |f: nat, c: nat| any_onset(hits@.subrange(0, i as int), f, c)),
            is_label_grid(actives@, n_frames as nat, |f: nat, c: nat| any_active(hits@.subrange(0, i as int), f, c)),
        decreases n_hits - i,
    {
        let hit = hits[i];
        let ghost prefix = hits@.subrange(0, i as int);
        let ghost next = hits@.subrange(0, i + 1);
        assert(next.drop_last() =~= prefix);
        assert(next.last() == hit);
        match hit_frame(&hit) {
            Some(frame) => {
                if frame < n_frames as u128 {
                    let frame = frame as usize;
                    let cls = hit.class.index();
                    let mut row = onsets[frame];
                    row.set(cls, 1u8);
                    onsets.set(frame, row);

                    let end = if n_frames - frame < TIME_CHUNK_LENGTH { n_frames } else { frame + TIME_CHUNK_LENGTH };
                    let ghost before = actives@;
                    let mut g: usize = frame;
                    while g < end
                        invariant
                            frame <= g <= end,
                            end <= n_frames,
                            cls < INSTRUMENT_COUNT,
                            actives@.len() == n_frames,
                            before.len() == n_frames,
                            forall|k: int, c: int|
                                0 <= k < n_frames && 0 <= c < INSTRUMENT_COUNT ==> #[trigger] actives@[k]@[c] == if c
                                    == cls && frame <= k < g {
                                    1u8
                                } else {
                                    before[k]@[c]
                                },
                        decreases end - g,
                    {
                        let mut row = actives[g];
                        row.set(cls, 1u8);
                        actives.set(g, row);
                        g = g + 1;
                    }
                    assert(is_label_grid(onsets@, n_frames as nat, |f: nat, c: nat| any_onset(next, f, c)));
                    assert(is_label_grid(actives@, n_frames as nat, |f: nat, c: nat| any_active(next, f, c)));
                } else {
                    assert(is_label_grid(onsets@, n_frames as nat, |f: nat, c: nat| any_onset(next, f, c)));
                    assert(is_label_grid(actives@, n_frames as nat, |f: nat, c: nat| any_active(next, f, c)));
                }
            },
            None => {
                assert(is_label_grid(onsets@, n_frames as nat, |f: nat, c: nat| any_onset(next, f, c)));
                assert(is_label_grid(actives@, n_frames as nat, |f: nat, c: nat| any_active(next, f, c)));
            },
        }
        i = i + 1;
    }
    assert(hits@.subrange(0, n_hits as int) =~= hits@);
    (onsets, actives)
}

/// Little-endian bytes of a sequence of 32-bit values, one after the other.
pub open spec fn mel_bytes(mels: Seq<u32>) -> Seq<u8>
    decreases mels.len(),
{
    if mels.len() == 0 {
        seq![]
    } else {
        mel_bytes(mels.drop_last()) + spec_u32_to_le_bytes(mels.last())
    }
}

/// The bytes of one frame: its mel values, then its onset labels, then its active labels.
pub open spec fn frame_bytes(mels: [u32; MEL_FREQ_COUNT], onsets: [u8; INSTRUMENT_COUNT], actives: [u8; INSTRUMENT_COUNT]) -> Seq<u8> {
    mel_bytes(mels@) + onsets@ + actives@
}

/// The bytes of a track: its frames, one after the other.
pub open spec fn track_bytes(
    mels: Seq<[u32; MEL_FREQ_COUNT]>,
    onsets: Seq<[u8; INSTRUMENT_COUNT]>,
    actives: Seq<[u8; INSTRUMENT_COUNT]>,
) -> Seq<u8>
    decreases mels.len(),
{
    if mels.len() == 0 || onsets.len() != mels.len() || actives.len() != mels.len() {
        seq![]
    } else {
        track_bytes(mels.drop_last(), onsets.drop_last(), actives.drop_last()) + frame_bytes(
            mels.last(),
            onsets.last(),
            actives.last(),
        )
    }
}

proof fn lemma_mel_bytes(mels: Seq<u32>)
    ensures
        mel_bytes(mels).len() == 4 * mels.len(),
        forall|m: int|
            0 <= m < mels.len() ==> #[trigger] mel_bytes(mels).subrange(4 * m, 4 * m + 4)
                == spec_u32_to_le_bytes(mels[m]),
    decreases mels.len(),
{
    vstd::bytes::lemma_auto_spec_u32_to_from_le_bytes();
    if mels.len() > 0 {
        let prev = mels.drop_last();
        lemma_mel_bytes(prev);
        let all = mel_bytes(mels);
        assert forall|m: int| 0 <= m < mels.len() implies #[trigger] all.subrange(4 * m, 4 * m + 4)
            == spec_u32_to_le_bytes(mels[m]) by {
            if m < prev.len() {
                assert(all.subrange(4 * m, 4 * m + 4) =~= mel_bytes(prev).subrange(4 * m, 4 * m + 4));
            } else {
                assert(all.subrange(4 * m, 4 * m + 4) =~= spec_u32_to_le_bytes(mels.last()));
            }
        }
    }
}

proof fn lemma_track_bytes(
    mels: Seq<[u32; MEL_FREQ_COUNT]>,
    onsets: Seq<[u8; INSTRUMENT_COUNT]>,
    actives: Seq<[u8; INSTRUMENT_COUNT]>,
)
    requires
        onsets.len() == mels.len(),
        actives.len() == mels.len(),
    ensures
        track_bytes(mels, onsets, actives).len() == mels.len() * FRAME_BYTES,
        forall|f: int|
            0 <= f < mels.len() ==> #[trigger] track_bytes(mels, onsets, actives).subrange(
                f * FRAME_BYTES,
                f * FRAME_BYTES + FRAME_BYTES,
            ) == frame_bytes(mels[f], onsets[f], actives[f]),
    decreases mels.len(),
{
    if mels.len() > 0 {
        broadcast use vstd::array::array_len_matches_n;
        let (pm, po, pa) = (mels.drop_last(), onsets.drop_last(), actives.drop_last());
        lemma_track_bytes(pm, po, pa);
        lemma_mel_bytes(mels.last()@);
        assert(mels.last()@.len() == MEL_FREQ_COUNT);
        assert(onsets.last()@.len() == INSTRUMENT_COUNT);
        assert(actives.last()@.len() == INSTRUMENT_COUNT);
        let all = track_bytes(mels, onsets, actives);
        assert(FRAME_BYTES == 528);
        assert(all.len() == mels.len() * FRAME_BYTES);
        assert forall|f: int| 0 <= f < mels.len() implies #[trigger] all.subrange(
            f * FRAME_BYTES,
            f * FRAME_BYTES + FRAME_BYTES,
        ) == frame_bytes(mels[f], onsets[f], actives[f]) by {
            if f < pm.len() {
                assert(all.subrange(f * FRAME_BYTES, f * FRAME_BYTES + FRAME_BYTES) =~= track_bytes(
                    pm,
                    po,
                    pa,
                ).subrange(f * FRAME_BYTES, f * FRAME_BYTES + FRAME_BYTES));
            } else {
                assert(all.subrange(f * FRAME_BYTES, f * FRAME_BYTES + FRAME_BYTES) =~= frame_bytes(
                    mels.last(),
                    onsets.last(),
                    actives.last(),
                ));
            }
        }
    }
}

/// One chunk of `TIME_CHUNK_LENGTH` frames read from a track, flattened frame after frame
/// and shaped for the model's input: `TIME_CHUNK_LENGTH * MEL_FREQ_COUNT` mel values (as
/// float bit patterns) and `TIME_CHUNK_LENGTH * INSTRUMENT_COUNT` labels of each kind.
#[derive(Debug)]
pub struct ChunkData {
    pub mels: Vec<u32>,
    pub onsets: Vec<u8>,
    pub actives: Vec<u8>,
}

/// Offset in a track's bytes of frame `frame`.
pub open spec fn frame_start(frame: nat) -> int {
    frame * FRAME_BYTES
}

/// The mel values of the chunk of `track` that starts at frame `frame_offset`, frame after
/// frame: value `m` of frame `f` of the chunk is read from 4 little-endian bytes at offset
/// `4 * m` of frame `frame_offset + f`.
pub open spec fn chunk_mels(track: Seq<u8>, frame_offset: nat) -> Seq<u32> {
    Seq::new(
        (TIME_CHUNK_LENGTH * MEL_FREQ_COUNT) as nat,
        |i: int|
            spec_u32_from_le_bytes(
                track.subrange(
                    frame_start((frame_offset + i / MEL_FREQ_COUNT as int) as nat) + 4 * (i % MEL_FREQ_COUNT as int),
                    frame_start((frame_offset + i / MEL_FREQ_COUNT as int) as nat) + 4 * (i % MEL_FREQ_COUNT as int) + 4,
                ),
            ),
    )
}

/// The labels of the chunk of `track` that starts at frame `frame_offset`, frame after
/// frame: label `c` of frame `f` of the chunk is the byte at offset `offset + c` of frame
/// `frame_offset + f`.
pub open spec fn chunk_labels(track: Seq<u8>, frame_offset: nat, offset: int) -> Seq<u8> {
    Seq::new(
        (TIME_CHUNK_LENGTH * INSTRUMENT_COUNT) as nat,
        |i: int| track[frame_start((frame_offset + i / INSTRUMENT_COUNT as int) as nat) + offset + i % INSTRUMENT_COUNT as int],
    )
}

/// Read one chunk by slicing into the bytes of a track, starting at frame `frame_offset`.
pub fn read_chunk(track: &[u8], frame_offset: usize) -> (r: ChunkData)
    requires
        (frame_offset + TIME_CHUNK_LENGTH) * FRAME_BYTES <= track.len(),
    ensures
        r.mels@ == chunk_mels(track@, frame_offset as nat),
        r.onsets@ == chunk_labels(track@, frame_offset as nat, ONSETS_OFFSET as int),
        r.actives@ == chunk_labels(track@, frame_offset as nat, ACTIVES_OFFSET as int),
        r.mels@.len() == TIME_CHUNK_LENGTH * MEL_FREQ_COUNT,
        r.onsets@.len() == TIME_CHUNK_LENGTH * INSTRUMENT_COUNT,
        r.actives@.len() == TIME_CHUNK_LENGTH * INSTRUMENT_COUNT,
        forall|f: int, m: int|
            0 <= f < TIME_CHUNK_LENGTH && 0 <= m < MEL_FREQ_COUNT ==> #[trigger] r.mels@[f * MEL_FREQ_COUNT + m]
                == spec_u32_from_le_bytes(
                track@.subrange(
                    frame_start((frame_offset + f) as nat) + 4 * m,
                    frame_start((frame_offset + f) as nat) + 4 * m + 4,
                ),
            ),
        forall|f: int, c: int|
            0 <= f < TIME_CHUNK_LENGTH && 0 <= c < INSTRUMENT_COUNT ==> #[trigger] r.onsets@[f * INSTRUMENT_COUNT + c]
                == track@[frame_start((frame_offset + f) as nat) + ONSETS_OFFSET + c],
        forall|f: int, c: int|
            0 <= f < TIME_CHUNK_LENGTH && 0 <= c < INSTRUMENT_COUNT ==> #[trigger] r.actives@[f * INSTRUMENT_COUNT + c]
                == track@[frame_start((frame_offset + f) as nat) + ACTIVES_OFFSET + c],
{
    assert(FRAME_BYTES == 528);
    assert(ONSETS_OFFSET == 512 && ACTIVES_OFFSET == 520);
    let start_byte = frame_offset * FRAME_BYTES;
    let mut mels: Vec<u32> = Vec::new();
    let mut onsets: Vec<u8> = Vec::new();
    let mut actives: Vec<u8> = Vec::new();
    let mut f: usize = 0;
    while f < TIME_CHUNK_LENGTH
        invariant
            FRAME_BYTES == 528,
            ONSETS_OFFSET == 512,
            ACTIVES_OFFSET == 520,
            f <= TIME_CHUNK_LENGTH,
            start_byte == frame_offset * FRAME_BYTES,
            (frame_offset + TIME_CHUNK_LENGTH) * FRAME_BYTES <= track.len(),
            mels@.len() == f * MEL_FREQ_COUNT,
            onsets@.len() == f * INSTRUMENT_COUNT,
            actives@.len() == f * INSTRUMENT_COUNT,
            forall|g: int, m: int|
                0 <= g < f && 0 <= m < MEL_FREQ_COUNT ==> #[trigger] mels@[g * MEL_FREQ_COUNT + m]
                    == spec_u32_from_le_bytes(
                    track@.subrange(
                        frame_start((frame_offset + g) as nat) + 4 * m,
                        frame_start((frame_offset + g) as nat) + 4 * m + 4,
                    ),
                ),
            forall|g: int, c: int|
                0 <= g < f && 0 <= c < INSTRUMENT_COUNT ==> #[trigger] onsets@[g * INSTRUMENT_COUNT + c]
                    == track@[frame_start((frame_offset + g) as nat) + ONSETS_OFFSET + c],
            forall|g: int, c: int|
                0 <= g < f && 0 <= c < INSTRUMENT_COUNT ==> #[trigger] actives@[g * INSTRUMENT_COUNT + c]
                    == track@[frame_start((frame_offset + g) as nat) + ACTIVES_OFFSET + c],
        decreases TIME_CHUNK_LENGTH - f,
    {
        let base = start_byte + f * FRAME_BYTES;
        assert(base == frame_start((frame_offset + f) as nat));

        /* mels: read MEL_FREQ_COUNT values, little-endian */
        let mut m: usize = 0;
        while m < MEL_FREQ_COUNT
            invariant
                FRAME_BYTES == 528,
                ONSETS_OFFSET == 512,
                ACTIVES_OFFSET == 520,
                f < TIME_CHUNK_LENGTH,
                m <= MEL_FREQ_COUNT,
                base == frame_start((frame_offset + f) as nat),
                (frame_offset + TIME_CHUNK_LENGTH) * FRAME_BYTES <= track.len(),
                mels@.len() == f * MEL_FREQ_COUNT + m,
                forall|g: int, k: int|
                    0 <= g < f && 0 <= k < MEL_FREQ_COUNT ==> #[trigger] mels@[g * MEL_FREQ_COUNT + k]
                        == spec_u32_from_le_bytes(
                        track@.subrange(
                            frame_start((frame_offset + g) as nat) + 4 * k,
                            frame_start((frame_offset + g) as nat) + 4 * k + 4,
                        ),
                    ),
                forall|k: int|
                    0 <= k < m ==> #[trigger] mels@[f * MEL_FREQ_COUNT + k] == spec_u32_from_le_bytes(
                        track@.subrange(base + 4 * k, base + 4 * k + 4),
                    ),
            decreases MEL_FREQ_COUNT - m,
        {
            let off = base + m * 4;
            let value = vstd::bytes::u32_from_le_bytes(vstd::slice::slice_subrange(track, off, off + 4));
            mels.push(value);
            m = m + 1;
        }

        /* onsets and actives: one byte per instrument */
        let mut c: usize = 0;
        while c < INSTRUMENT_COUNT
            invariant
                FRAME_BYTES == 528,
                ONSETS_OFFSET == 512,
                ACTIVES_OFFSET == 520,
                f < TIME_CHUNK_LENGTH,
                c <= INSTRUMENT_COUNT,
                base == frame_start((frame_offset + f) as nat),
                (frame_offset + TIME_CHUNK_LENGTH) * FRAME_BYTES <= track.len(),
                onsets@.len() == f * INSTRUMENT_COUNT + c,
                forall|g: int, k: int|
                    0 <= g < f && 0 <= k < INSTRUMENT_COUNT ==> #[trigger] onsets@[g * INSTRUMENT_COUNT + k]
                        == track@[frame_start((frame_offset + g) as nat) + ONSETS_OFFSET + k],
                forall|k: int| 0 <= k < c ==> #[trigger] onsets@[f * INSTRUMENT_COUNT + k] == track@[base + ONSETS_OFFSET + k],
            decreases INSTRUMENT_COUNT - c,
        {
            onsets.push(track[base + ONSETS_OFFSET + c]);
            c = c + 1;
        }
        let mut c: usize = 0;
        while c < INSTRUMENT_COUNT
            invariant
                FRAME_BYTES == 528,
                ONSETS_OFFSET == 512,
                ACTIVES_OFFSET == 520,
                f < TIME_CHUNK_LENGTH,
                c <= INSTRUMENT_COUNT,
                base == frame_start((frame_offset + f) as nat),
                (frame_offset + TIME_CHUNK_LENGTH) * FRAME_BYTES <= track.len(),
                actives@.len() == f * INSTRUMENT_COUNT + c,
                forall|g: int, k: int|
                    0 <= g < f && 0 <= k < INSTRUMENT_COUNT ==> #[trigger] actives@[g * INSTRUMENT_COUNT + k]
                        == track@[frame_start((frame_offset + g) as nat) + ACTIVES_OFFSET + k],
                forall|k: int| 0 <= k < c ==> #[trigger] actives@[f * INSTRUMENT_COUNT + k] == track@[base + ACTIVES_OFFSET + k],
            decreases INSTRUMENT_COUNT - c,
        {
            actives.push(track[base + ACTIVES_OFFSET + c]);
            c = c + 1;
        }
        f = f + 1;
    }
    assert forall|i: int| 0 <= i < TIME_CHUNK_LENGTH * MEL_FREQ_COUNT implies mels@[i] == chunk_mels(
        track@,
        frame_offset as nat,
    )[i] by {
        let g = i / MEL_FREQ_COUNT as int;
        let m = i % MEL_FREQ_COUNT as int;
        assert(i == g * MEL_FREQ_COUNT + m);
        assert(mels@[g * MEL_FREQ_COUNT + m] == spec_u32_from_le_bytes(
            track@.subrange(
                frame_start((frame_offset + g) as nat) + 4 * m,
                frame_start((frame_offset + g) as nat) + 4 * m + 4,
            ),
        ));
    }
    assert forall|i: int| 0 <= i < TIME_CHUNK_LENGTH * INSTRUMENT_COUNT implies onsets@[i] == chunk_labels(
        track@,
        frame_offset as nat,
        ONSETS_OFFSET as int,
    )[i] && actives@[i] == chunk_labels(track@, frame_offset as nat, ACTIVES_OFFSET as int)[i] by {
        let g = i / INSTRUMENT_COUNT as int;
        let c = i % INSTRUMENT_COUNT as int;
        assert(i == g * INSTRUMENT_COUNT + c);
        assert(onsets@[g * INSTRUMENT_COUNT + c] == track@[frame_start((frame_offset + g) as nat) + ONSETS_OFFSET + c]);
        assert(actives@[g * INSTRUMENT_COUNT + c] == track@[frame_start((frame_offset + g) as nat) + ACTIVES_OFFSET + c]);
    }
    assert(mels@ =~= chunk_mels(track@, frame_offset as nat));
    assert(onsets@ =~= chunk_labels(track@, frame_offset as nat, ONSETS_OFFSET as int));
    assert(actives@ =~= chunk_labels(track@, frame_offset as nat, ACTIVES_OFFSET as int));
    ChunkData { mels, onsets, actives }
}

/// Reading a chunk back from the bytes `write` produced for a track gives the frames of
/// the track that the chunk covers: frame `f` of a chunk starting at `frame_offset` holds
/// the mel values and labels of frame `frame_offset + f` of the track.
pub proof fn lemma_read_chunk_reads_written_frames(
    mels: Seq<[u32; MEL_FREQ_COUNT]>,
    onsets: Seq<[u8; INSTRUMENT_COUNT]>,
    actives: Seq<[u8; INSTRUMENT_COUNT]>,
    frame_offset: nat,
    f: nat,
)
    requires
        onsets.len() == mels.len(),
        actives.len() == mels.len(),
        f < TIME_CHUNK_LENGTH,
        frame_offset + TIME_CHUNK_LENGTH <= mels.len(),
    ensures
        ({
            let track = track_bytes(mels, onsets, actives);
            let base = frame_start(frame_offset + f);
            &&& forall|m: int|
                0 <= m < MEL_FREQ_COUNT ==> spec_u32_from_le_bytes(#[trigger] track.subrange(base + 4 * m, base + 4 * m + 4))
                    == mels[(frame_offset + f) as int]@[m]
            &&& forall|c: int|
                0 <= c < INSTRUMENT_COUNT ==> #[trigger] track[base + ONSETS_OFFSET + c] == onsets[(frame_offset
                    + f) as int]@[c]
            &&& forall|c: int|
                0 <= c < INSTRUMENT_COUNT ==> #[trigger] track[base + ACTIVES_OFFSET + c] == actives[(frame_offset
                    + f) as int]@[c]
        }),
{
    broadcast use vstd::array::array_len_matches_n;
    vstd::bytes::lemma_auto_spec_u32_to_from_le_bytes();
    let g = (frame_offset + f) as int;
    let track = track_bytes(mels, onsets, actives);
    let base = frame_start(frame_offset + f);
    assert(FRAME_BYTES == 528);
    lemma_track_bytes(mels, onsets, actives);
    lemma_mel_bytes(mels[g]@);
    let frame = track.subrange(g * FRAME_BYTES, g * FRAME_BYTES + FRAME_BYTES);
    assert(frame == frame_bytes(mels[g], onsets[g], actives[g]));
    assert(mels[g]@.len() == MEL_FREQ_COUNT);
    assert(ONSETS_OFFSET == 512 && ACTIVES_OFFSET == 520);
    assert(base == g * 528);
    assert(track.len() == mels.len() * 528);
    let mb = mel_bytes(mels[g]@);
    assert(mb.len() == 512);
    assert(frame =~= mb + onsets[g]@ + actives[g]@);
    assert forall|m: int| 0 <= m < MEL_FREQ_COUNT implies spec_u32_from_le_bytes(
        #[trigger] track.subrange(base + 4 * m, base + 4 * m + 4),
    ) == mels[g]@[m] by {
        assert(track.subrange(base + 4 * m, base + 4 * m + 4) =~= frame.subrange(4 * m, 4 * m + 4));
        assert(frame.subrange(4 * m, 4 * m + 4) =~= mb.subrange(4 * m, 4 * m + 4));
    }
    assert forall|c: int| 0 <= c < INSTRUMENT_COUNT implies #[trigger] track[base + ONSETS_OFFSET + c]
        == onsets[g]@[c] by {
        assert(track[base + ONSETS_OFFSET + c] == frame[ONSETS_OFFSET + c]);
    }
    assert forall|c: int| 0 <= c < INSTRUMENT_COUNT implies #[trigger] track[base + ACTIVES_OFFSET + c]
        == actives[g]@[c] by {
        assert(track[base + ACTIVES_OFFSET + c] == frame[ACTIVES_OFFSET + c]);
    }
}

/// Writing a track and reading a chunk back gives the chunk's frames: the bytes `write`
/// produces hold `FRAME_BYTES` per frame, so every chunk that fits in the track can be
/// read, and the chunk read at `frame_offset` holds, frame after frame, the mel values and
/// labels of frames `frame_offset` to `frame_offset + TIME_CHUNK_LENGTH - 1` of the track.
pub proof fn lemma_read_chunk_of_written_track(
    mels: Seq<[u32; MEL_FREQ_COUNT]>,
    onsets: Seq<[u8; INSTRUMENT_COUNT]>,
    actives: Seq<[u8; INSTRUMENT_COUNT]>,
    frame_offset: nat,
)
    requires
        onsets.len() == mels.len(),
        actives.len() == mels.len(),
        frame_offset + TIME_CHUNK_LENGTH <= mels.len(),
    ensures
        track_bytes(mels, onsets, actives).len() == mels.len() * FRAME_BYTES,
        (frame_offset + TIME_CHUNK_LENGTH) * FRAME_BYTES <= track_bytes(mels, onsets, actives).len(),
        chunk_mels(track_bytes(mels, onsets, actives), frame_offset) == Seq::new(
            (TIME_CHUNK_LENGTH * MEL_FREQ_COUNT) as nat,
            |i: int| mels[frame_offset + i / MEL_FREQ_COUNT as int]@[i % MEL_FREQ_COUNT as int],
        ),
        chunk_labels(track_bytes(mels, onsets, actives), frame_offset, ONSETS_OFFSET as int) == Seq::new(
            (TIME_CHUNK_LENGTH * INSTRUMENT_COUNT) as nat,
            |i: int| onsets[frame_offset + i / INSTRUMENT_COUNT as int]@[i % INSTRUMENT_COUNT as int],
        ),
        chunk_labels(track_bytes(mels, onsets, actives), frame_offset, ACTIVES_OFFSET as int) == Seq::new(
            (TIME_CHUNK_LENGTH * INSTRUMENT_COUNT) as nat,
            |i: int| actives[frame_offset + i / INSTRUMENT_COUNT as int]@[i % INSTRUMENT_COUNT as int],
        ),
{
    let track = track_bytes(mels, onsets, actives);
    lemma_track_bytes(mels, onsets, actives);
    assert((frame_offset + TIME_CHUNK_LENGTH) * FRAME_BYTES <= mels.len() * FRAME_BYTES) by (nonlinear_arith)
        requires
            frame_offset + TIME_CHUNK_LENGTH <= mels.len(),
    ;
    let expected_mels = Seq::new(
        (TIME_CHUNK_LENGTH * MEL_FREQ_COUNT) as nat,
        |i: int| mels[frame_offset + i / MEL_FREQ_COUNT as int]@[i % MEL_FREQ_COUNT as int],
    );
    assert forall|i: int| 0 <= i < TIME_CHUNK_LENGTH * MEL_FREQ_COUNT implies #[trigger] chunk_mels(
        track,
        frame_offset,
    )[i] == expected_mels[i] by {
        let g = i / MEL_FREQ_COUNT as int;
        let m = i % MEL_FREQ_COUNT as int;
        assert(0 <= g < TIME_CHUNK_LENGTH);
        lemma_read_chunk_reads_written_frames(mels, onsets, actives, frame_offset, g as nat);
        let base = frame_start(frame_offset + g as nat);
        assert(spec_u32_from_le_bytes(track.subrange(base + 4 * m, base + 4 * m + 4)) == mels[(frame_offset + g)]@[m]);
    }
    assert(chunk_mels(track, frame_offset) =~= expected_mels);
    let expected_onsets = Seq::new(
        (TIME_CHUNK_LENGTH * INSTRUMENT_COUNT) as nat,
        |i: int| onsets[frame_offset + i / INSTRUMENT_COUNT as int]@[i % INSTRUMENT_COUNT as int],
    );
    let expected_actives = Seq::new(
        (TIME_CHUNK_LENGTH * INSTRUMENT_COUNT) as nat,
        |i: int| actives[frame_offset + i / INSTRUMENT_COUNT as int]@[i % INSTRUMENT_COUNT as int],
    );
    assert forall|i: int| 0 <= i < TIME_CHUNK_LENGTH * INSTRUMENT_COUNT implies #[trigger] chunk_labels(
        track,
        frame_offset,
        ONSETS_OFFSET as int,
    )[i] == expected_onsets[i] by {
        let g = i / INSTRUMENT_COUNT as int;
        let c = i % INSTRUMENT_COUNT as int;
        assert(0 <= g < TIME_CHUNK_LENGTH);
        lemma_read_chunk_reads_written_frames(mels, onsets, actives, frame_offset, g as nat);
        let base = frame_start(frame_offset + g as nat);
        assert(track[base + ONSETS_OFFSET + c] == onsets[frame_offset + g]@[c]);
    }
    assert forall|i: int| 0 <= i < TIME_CHUNK_LENGTH * INSTRUMENT_COUNT implies #[trigger] chunk_labels(
        track,
        frame_offset,
        ACTIVES_OFFSET as int,
    )[i] == expected_actives[i] by {
        let g = i / INSTRUMENT_COUNT as int;
        let c = i % INSTRUMENT_COUNT as int;
        assert(0 <= g < TIME_CHUNK_LENGTH);
        lemma_read_chunk_reads_written_frames(mels, onsets, actives, frame_offset, g as nat);
        let base = frame_start(frame_offset + g as nat);
        assert(track[base + ACTIVES_OFFSET + c] == actives[frame_offset + g]@[c]);
    }
    assert(chunk_labels(track, frame_offset, ONSETS_OFFSET as int) =~= expected_onsets);
    assert(chunk_labels(track, frame_offset, ACTIVES_OFFSET as int) =~= expected_actives);
}

/// Serialize one full track: interleaved mels + onsets + actives, frame by frame.
///
/// Writing the bytes to disk, and counting the frames written, is left to the caller.
pub fn write(
    mels: &[[u32; MEL_FREQ_COUNT]],
    onsets: &[[u8; INSTRUMENT_COUNT]],
    actives: &[[u8; INSTRUMENT_COUNT]],
) -> (bytes: Vec<u8>)
    requires
        onsets@.len() == mels@.len(),
        actives@.len() == mels@.len(),
        mels@.len() * FRAME_BYTES <= usize::MAX,
    ensures
        bytes@ == track_bytes(mels@, onsets@, actives@),
{
    let mut bytes: Vec<u8> = Vec::new();
    let n = mels.len();
    let mut f: usize = 0;
    while f < n
        invariant
            n == mels@.len(),
            onsets@.len() == n,
            actives@.len() == n,
            f <= n,
            bytes@ == track_bytes(mels@.subrange(0, f as int), onsets@.subrange(0, f as int), actives@.subrange(0, f as int)),
        decreases n - f,
    {
        let mel = mels[f];
        let on = onsets[f];
        let act = actives[f];
        let ghost start = bytes@;
        let mut m: usize = 0;
        while m < MEL_FREQ_COUNT
            invariant
                m <= MEL_FREQ_COUNT,
                bytes@ == start + mel_bytes(mel@.subrange(0, m as int)),
            decreases MEL_FREQ_COUNT - m,
        {
            let le = vstd::bytes::u32_to_le_bytes(mel[m]);
            bytes.push(le[0]);
            bytes.push(le[1]);
            bytes.push(le[2]);
            bytes.push(le[3]);
            assert(mel@.subrange(0, m + 1).drop_last() =~= mel@.subrange(0, m as int));
            assert(le@ =~= seq![le@[0], le@[1], le@[2], le@[3]]);
            m = m + 1;
            assert(bytes@ =~= start + mel_bytes(mel@.subrange(0, m as int)));
        }
        let ghost after_mels = bytes@;
        let mut c: usize = 0;
        while c < INSTRUMENT_COUNT
            invariant
                c <= INSTRUMENT_COUNT,
                bytes@ == after_mels + on@.subrange(0, c as int),
            decreases INSTRUMENT_COUNT - c,
        {
            bytes.push(on[c]);
            c = c + 1;
            assert(bytes@ =~= after_mels + on@.subrange(0, c as int));
        }
        let ghost after_onsets = bytes@;
        let mut c: usize = 0;
        while c < INSTRUMENT_COUNT
            invariant
                c <= INSTRUMENT_COUNT,
                bytes@ == after_onsets + act@.subrange(0, c as int),
            decreases INSTRUMENT_COUNT - c,
        {
            bytes.push(act[c]);
            c = c + 1;
            assert(bytes@ =~= after_onsets + act@.subrange(0, c as int));
        }
        assert(mel@.subrange(0, MEL_FREQ_COUNT as int) =~= mel@);
        assert(on@.subrange(0, INSTRUMENT_COUNT as int) =~= on@);
        assert(act@.subrange(0, INSTRUMENT_COUNT as int) =~= act@);
        let ghost fm = mels@.subrange(0, f + 1);
        let ghost fo = onsets@.subrange(0, f + 1);
        let ghost fa = actives@.subrange(0, f + 1);
        assert(fm.drop_last() =~= mels@.subrange(0, f as int));
        assert(fo.drop_last() =~= onsets@.subrange(0, f as int));
        assert(fa.drop_last() =~= actives@.subrange(0, f as int));
        f = f + 1;
        assert(bytes@ =~= track_bytes(fm, fo, fa));
    }
    assert(mels@.subrange(0, n as int) =~= mels@);
    assert(onsets@.subrange(0, n as int) =~= onsets@);
    assert(actives@.subrange(0, n as int) =~= actives@);
    bytes
}

} // verus!
