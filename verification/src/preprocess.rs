//! Preprocessing of one recording of the dataset: its mel frames, labelled with the drum
//! hits of its MIDI file, become the bytes of a processed track.
//!
//! Decoding the audio, extracting its mel frames, and reading and writing the files are
//! left to the caller.
use vstd::prelude::*;
use crate::chunk::{FRAME_BYTES, any_active, any_onset, build_labels, is_label_grid, track_bytes};
use crate::config::{INSTRUMENT_COUNT, MEL_FREQ_COUNT};
use crate::midi::{DrumHit, MidiError, MidiTiming, midly_parsed, parse, spec_drum_hits};

verus! {

/// `bytes` is the processed track of the mel frames `mels` labelled with `hits`: each frame
/// followed by its onset and active labels, as `build_labels` lays them out.
pub open spec fn is_processed_track(bytes: Seq<u8>, mels: Seq<[u32; MEL_FREQ_COUNT]>, hits: Seq<DrumHit>) -> bool {
    exists|onsets: Seq<[u8; INSTRUMENT_COUNT]>, actives: Seq<[u8; INSTRUMENT_COUNT]>|
        {
            &&& is_label_grid(onsets, mels.len(), |f: nat, c: nat| any_onset(hits, f, c))
            &&& is_label_grid(actives, mels.len(), |f: nat, c: nat| any_active(hits, f, c))
            &&& bytes == #[trigger] track_bytes(mels, onsets, actives)
        }
}

/// Processes one recording: reads the drum hits of its MIDI file `midi`, labels its mel
/// frames `mels` (bit patterns of 32-bit floats) with them, and returns the bytes of the
/// processed track.
///
/// Fails when the MIDI file cannot be parsed, or counts time in SMPTE frames.
pub fn process_one(mels: &[[u32; MEL_FREQ_COUNT]], midi: &[u8]) -> (r: Result<Vec<u8>, MidiError>)
    requires
        mels@.len() * FRAME_BYTES <= usize::MAX,
    ensures
        match midly_parsed(midi@) {
            None => r matches Err(MidiError::Parse(_)),
            Some((MidiTiming::Timecode, _)) => r matches Err(MidiError::TimecodeNotSupported),
            Some((MidiTiming::Metrical(ticks_per_beat), tracks)) => r matches Ok(bytes)
                && is_processed_track(bytes@, mels@, spec_drum_hits(tracks, ticks_per_beat)),
        },
{
    let hits = parse(midi)?;
    let (onsets, actives) = build_labels(hits.as_slice(), mels.len());
    let bytes = crate::chunk::write(mels, onsets.as_slice(), actives.as_slice());
    proof {
        let hs = hits@;
        assert(is_label_grid(onsets@, mels@.len(), |f: nat, c: nat| any_onset(hs, f, c)));
        assert(is_label_grid(actives@, mels@.len(), |f: nat, c: nat| any_active(hs, f, c)));
        assert(bytes@ == track_bytes(mels@, onsets@, actives@));
    }
    Ok(bytes)
}

} // verus!
