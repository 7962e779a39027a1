//! Reads the drum hits of a Standard MIDI File.
//!
//! The file is parsed by `midly`; its events are handed over as plain values and walked
//! here, keeping the time of each hit exact: as a fraction of a second, in integers.
use vstd::prelude::*;
use crate::drum::{DrumClass, spec_class_of_key};
use midly::{MetaMessage, MidiMessage, Smf, Timing, TrackEvent, TrackEventKind as Kind};

verus! {

/// How the file counts time.
#[derive(Debug, Clone, Copy, PartialEq, Eq, Structural)]
pub enum MidiTiming {
    /// Ticks per beat; the length of a beat comes from the tempo events.
    Metrical(u16),
    /// Ticks per second, given as frames per second and subframes (SMPTE).
    Timecode,
}

/// What an event is, as far as drum hits are concerned.
#[derive(Debug, Clone, Copy, PartialEq, Eq, Structural)]
pub enum MidiEventKind {
    /// Tempo change: microseconds per beat from now on.
    Tempo(u32),
    /// A note starts to play on `channel` (0-based).
    NoteOn { channel: u8, key: u8, vel: u8 },
    /// Any other event.
    Other,
}

/// One event of a track.
#[derive(Debug, Clone, Copy, PartialEq, Eq, Structural)]
pub struct MidiEvent {
    /// Ticks since the previous event of the track.
    pub delta: u32,
    pub kind: MidiEventKind,
}

/// A parsed MIDI file.
#[derive(Debug)]
pub struct MidiFile {
    pub timing: MidiTiming,
    pub tracks: Vec<Vec<MidiEvent>>,
}

/// One drum hit.
///
/// The hit happens `time_numerator / time_denominator` seconds after the start of its track.
#[derive(Debug, Clone, Copy, PartialEq, Eq, Structural)]
pub struct DrumHit {
    pub time_numerator: u128,
    pub time_denominator: u64,
    pub class: DrumClass,
}

/// Errors when reading the drum hits of a MIDI file.
#[derive(Debug)]
pub enum MidiError {
    /// The bytes are not a valid MIDI file.
    Parse(midly::Error),
    /// The file counts time in SMPTE frames, which is not supported.
    TimecodeNotSupported,
}

#[verifier::external_type_specification]
#[verifier::external_body]
pub struct ExMidlyError(midly::Error);

/// What `midly::Smf::parse` makes of `bytes`: the file's timing and the events of each
/// of its tracks, or `None` when it refuses the bytes.
pub uninterp spec fn midly_parsed(bytes: Seq<u8>) -> Option<(MidiTiming, Seq<Seq<MidiEvent>>)>;

/// `midly::Smf::parse`: parses a Standard MIDI File. The result is a function of the
/// bytes alone, named `midly_parsed`; this item converts it to plain values, event by
/// event: a tempo change keeps its tempo, a note-on its channel, key and velocity, and
/// every other event becomes `Other`.
#[verifier::external_body]
fn midly_parse(bytes: &[u8]) -> (r: Result<MidiFile, midly::Error>)
    ensures
        r is Ok <==> midly_parsed(bytes@) is Some,
        r matches Ok(file) ==> midly_parsed(bytes@) == Some(
            (file.timing, file.tracks@.map_values(|track: Vec<MidiEvent>| track@)),
        ),
{
    let smf = Smf::parse(bytes)?;
    let timing = match smf.header.timing {
        Timing::Metrical(t) => MidiTiming::Metrical(t.as_int()),
        _ => MidiTiming::Timecode,
    };
    let event_of = |e: &TrackEvent| MidiEvent { delta: e.delta.as_int(), kind: match e.kind {
        Kind::Meta(MetaMessage::Tempo(t)) => MidiEventKind::Tempo(t.as_int()),
        Kind::Midi { channel, message: MidiMessage::NoteOn { key, vel } } =>
            MidiEventKind::NoteOn { channel: channel.as_int(), key: key.as_int(), vel: vel.as_int() },
        _ => MidiEventKind::Other,
    } };
    let tracks = smf.tracks.iter().map(|track| track.iter().map(event_of).collect()).collect();
    Ok(MidiFile { timing, tracks })
}

/// Tempo of a MIDI file before any tempo event: 120 beats per minute.
pub const DEFAULT_US_PER_BEAT: u32 = 500_000;

/// General MIDI drums play on channel 10, 9 when counted from 0.
pub const DRUM_CHANNEL: u8 = 9;

/// The tempo after `event`, when it was `us_per_beat` before.
pub open spec fn tempo_after(event: MidiEvent, us_per_beat: u32) -> u32 {
    match event.kind {
        MidiEventKind::Tempo(t) => t,
        _ => us_per_beat,
    }
}

/// The drum hit that `event`, happening at `time / denominator` seconds, stands for, if any:
/// a note that starts on the drum channel with a non-zero velocity, on a key of a drum class.
pub open spec fn hit_of(event: MidiEvent, time: nat, denominator: u64) -> Seq<DrumHit> {
    match event.kind {
        MidiEventKind::NoteOn { channel, key, vel } => {
            if channel == DRUM_CHANNEL && vel > 0 {
                match spec_class_of_key(key) {
                    Some(class) => seq![DrumHit { time_numerator: time as u128, time_denominator: denominator, class }],
                    None => seq![],
                }
            } else {
                seq![]
            }
        },
        _ => seq![],
    }
}

/// Tempo and elapsed time (in microseconds times ticks per beat) after the first `n`
/// events of a track that starts with tempo `us0`.
pub open spec fn track_state(events: Seq<MidiEvent>, n: nat, us0: u32) -> (u32, nat)
    decreases n,
{
    if n == 0 || n > events.len() {
        (us0, 0)
    } else {
        let (us, elapsed) = track_state(events, (n - 1) as nat, us0);
        let event = events[n - 1];
        (tempo_after(event, us), (elapsed + event.delta * us) as nat)
    }
}

/// The drum hits among the first `n` events of a track that starts with tempo `us0`.
pub open spec fn track_hits(events: Seq<MidiEvent>, n: nat, us0: u32, denominator: u64) -> Seq<DrumHit>
    decreases n,
{
    if n == 0 || n > events.len() {
        seq![]
    } else {
        let (us, elapsed) = track_state(events, (n - 1) as nat, us0);
        let event = events[n - 1];
        track_hits(events, (n - 1) as nat, us0, denominator) + hit_of(event, (elapsed + event.delta * us) as nat, denominator)
    }
}

/// The tempo after the first `k` tracks: each track starts with the tempo the previous
/// one ended with.
pub open spec fn tempo_after_tracks(tracks: Seq<Seq<MidiEvent>>, k: nat) -> u32
    decreases k,
{
    if k == 0 || k > tracks.len() {
        DEFAULT_US_PER_BEAT
    } else {
        let t = tracks[k - 1];
        track_state(t, t.len(), tempo_after_tracks(tracks, (k - 1) as nat)).0
    }
}

/// The drum hits of the first `k` tracks, track after track. The time of each hit counts
/// from the start of its own track.
pub open spec fn file_hits(tracks: Seq<Seq<MidiEvent>>, k: nat, denominator: u64) -> Seq<DrumHit>
    decreases k,
{
    if k == 0 || k > tracks.len() {
        seq![]
    } else {
        let t = tracks[k - 1];
        file_hits(tracks, (k - 1) as nat, denominator) + track_hits(
            t,
            t.len(),
            tempo_after_tracks(tracks, (k - 1) as nat),
            denominator,
        )
    }
}

/// The drum hits of a file that counts `ticks_per_beat` ticks per beat: time in seconds is
/// elapsed microseconds-times-ticks over `1_000_000 * ticks_per_beat`.
pub open spec fn spec_drum_hits(tracks: Seq<Seq<MidiEvent>>, ticks_per_beat: u16) -> Seq<DrumHit> {
    file_hits(tracks, tracks.len(), (1_000_000 * ticks_per_beat) as u64)
}

/// Largest elapsed time one event adds.
pub open spec fn max_step() -> nat {
    (u32::MAX as nat) * (u32::MAX as nat)
}

proof fn lemma_step_bound(delta: u32, us: u32)
    ensures
        delta * us <= max_step(),
{
    assert(delta * us <= (u32::MAX as nat) * (u32::MAX as nat)) by (nonlinear_arith)
        requires
            delta <= u32::MAX,
            us <= u32::MAX,
    ;
}

proof fn lemma_elapsed_bound(i: nat, elapsed: nat)
    requires
        elapsed <= i * max_step(),
        i < usize::MAX,
    ensures
        elapsed + max_step() <= (i + 1) * max_step(),
        (i + 1) * max_step() < u128::MAX,
{
    assert((i + 1) * max_step() == i * max_step() + max_step()) by (nonlinear_arith);
    assert((i + 1) * max_step() <= 0xffff_ffff_ffff_ffffnat * max_step()) by (nonlinear_arith)
        requires
            i + 1 <= 0xffff_ffff_ffff_ffffnat,
    ;
    assert(0xffff_ffff_ffff_ffffnat * max_step() < u128::MAX);
}

/// Walks the tracks of a parsed MIDI file and collects its drum hits, in track order.
///
/// Fails for files that count time in SMPTE frames.
pub fn drum_hits(file: &MidiFile) -> (r: Result<Vec<DrumHit>, MidiError>)
    ensures
        match file.timing {
            MidiTiming::Timecode => r matches Err(MidiError::TimecodeNotSupported),
            MidiTiming::Metrical(ticks_per_beat) => r matches Ok(hits) && hits@ == spec_drum_hits(
                file.tracks@.map_values(|track: Vec<MidiEvent>| track@),
                ticks_per_beat,
            ),
        },
{
    let ticks_per_beat = match file.timing {
        MidiTiming::Metrical(ticks) => ticks,
        MidiTiming::Timecode => return Err(MidiError::TimecodeNotSupported),
    };
    let denominator: u64 = 1_000_000 * (ticks_per_beat as u64);
    let ghost tracks = file.tracks@.map_values(|track: Vec<MidiEvent>| track@);

    let mut hits: Vec<DrumHit> = Vec::new();
    let mut us_per_beat: u32 = DEFAULT_US_PER_BEAT;
    let n_tracks = file.tracks.len();
    let mut k: usize = 0;
    while k < n_tracks
        invariant
            n_tracks == file.tracks@.len(),
            tracks == file.tracks@.map_values(|track: Vec<MidiEvent>| track@),
            k <= n_tracks,
            us_per_beat == tempo_after_tracks(tracks, k as nat),
            hits@ == file_hits(tracks, k as nat, denominator),
            denominator == (1_000_000 * ticks_per_beat) as u64,
        decreases n_tracks - k,
    {
        let track = &file.tracks[k];
        let ghost events = track@;
        let ghost us0 = us_per_beat;
        let ghost hits0 = hits@;
        assert(tracks[k as int] == events);
        let n_events = track.len();
        let mut elapsed: u128 = 0;
        let mut i: usize = 0;
        while i < n_events
            invariant
                n_events == events.len(),
                events == track@,
                i <= n_events,
                track_state(events, i as nat, us0) == (us_per_beat, elapsed as nat),
                hits@ == hits0 + track_hits(events, i as nat, us0, denominator),
                elapsed <= i * max_step(),
            decreases n_events - i,
        {
            let event = track[i];
            let ghost us_before = us_per_beat;
            let ghost elapsed_before = elapsed;
            proof {
                lemma_step_bound(event.delta, us_per_beat);
                lemma_elapsed_bound(i as nat, elapsed as nat);
                assert(event == events[i as int]);
                if event.delta == 0 {
                    assert(event.delta * us_per_beat == 0) by (nonlinear_arith)
                        requires
                            event.delta == 0,
                    ;
                }
            }
            let ghost before = hits@;
            if event.delta > 0 {
                elapsed = elapsed + (event.delta as u128) * (us_per_beat as u128);
            }
            match event.kind {
                MidiEventKind::Tempo(tempo) => {
                    us_per_beat = tempo;
                },
                MidiEventKind::NoteOn { channel, key, vel } => {
                    if channel == DRUM_CHANNEL && vel > 0 {
                        match DrumClass::from_midi(key) {
                            Some(class) => {
                                hits.push(DrumHit { time_numerator: elapsed, time_denominator: denominator, class });
                            },
                            None => {},
                        }
                    }
                },
                MidiEventKind::Other => {},
            }
            assert(elapsed == elapsed_before + event.delta * us_before);
            assert(us_per_beat == tempo_after(event, us_before));
            i = i + 1;
            assert(track_state(events, i as nat, us0) == (us_per_beat, elapsed as nat));
            assert(hits@ =~= before + hit_of(event, elapsed as nat, denominator));
            assert(hits@ =~= hits0 + track_hits(events, i as nat, us0, denominator));
        }
        assert(events.len() == n_events);
        k = k + 1;
        assert(hits@ =~= file_hits(tracks, k as nat, denominator));
    }
    assert(tracks.len() == n_tracks);
    Ok(hits)
}

/// Parses a MIDI file and returns its drum hits, in track order.
///
/// Fails when `midly` refuses the bytes, and for files that count time in SMPTE frames.
pub fn parse(bytes: &[u8]) -> (r: Result<Vec<DrumHit>, MidiError>)
    ensures
        match midly_parsed(bytes@) {
            None => r matches Err(MidiError::Parse(_)),
            Some((MidiTiming::Timecode, _)) => r matches Err(MidiError::TimecodeNotSupported),
            Some((MidiTiming::Metrical(ticks_per_beat), tracks)) => r matches Ok(hits) && hits@
                == spec_drum_hits(tracks, ticks_per_beat),
        },
{
    match midly_parse(bytes) {
        Ok(file) => drum_hits(&file),
        Err(error) => Err(MidiError::Parse(error)),
    }
}

} // verus!
