use band::drum::DrumClass;
use band::midi::{parse, MidiError};

/// A one-track MIDI file, `ticks` ticks per beat, holding `events` (delta-timed bytes).
fn smf(division: [u8; 2], events: &[u8]) -> Vec<u8> {
    let mut bytes = b"MThd".to_vec();
    bytes.extend_from_slice(&[0, 0, 0, 6, 0, 0, 0, 1]);
    bytes.extend_from_slice(&division);
    bytes.extend_from_slice(b"MTrk");
    let len = (events.len() + 4) as u32;
    bytes.extend_from_slice(&len.to_be_bytes());
    bytes.extend_from_slice(events);
    bytes.extend_from_slice(&[0x00, 0xFF, 0x2F, 0x00]);
    bytes
}

const TICKS_480: [u8; 2] = [0x01, 0xE0];

#[test]
fn kick_then_snare_one_beat_later() {
    /* kick at tick 0, snare 480 ticks (one beat, 0.5 s at 120 bpm) later */
    let bytes = smf(TICKS_480, &[0x00, 0x99, 36, 100, 0x83, 0x60, 0x99, 38, 100]);
    let hits = parse(&bytes).expect("valid file");
    assert_eq!(hits.len(), 2);
    assert_eq!(hits[0].class, DrumClass::Kick);
    assert_eq!(hits[0].time_numerator, 0);
    assert_eq!(hits[1].class, DrumClass::Snare);
    /* time = 480 ticks * 500000 us / (1e6 * 480) = 0.5 s */
    assert_eq!(hits[1].time_numerator * 2, hits[1].time_denominator as u128);
    assert_eq!(hits[1].time_denominator, 480_000_000);
}

#[test]
fn notes_off_the_drum_channel_or_silent_are_not_hits() {
    /* channel 0 note, drum-channel note with zero velocity, unmapped key 30 */
    let bytes = smf(TICKS_480, &[0x00, 0x90, 36, 100, 0x00, 0x99, 36, 0, 0x00, 0x99, 30, 100]);
    assert!(parse(&bytes).expect("valid file").is_empty());
}

#[test]
fn tempo_change_rescales_later_hits() {
    /* tempo 250000 us per beat (240 bpm), then a hat one beat later: 0.25 s */
    let bytes = smf(TICKS_480, &[0x00, 0xFF, 0x51, 0x03, 0x03, 0xD0, 0x90, 0x83, 0x60, 0x99, 42, 90]);
    let hits = parse(&bytes).expect("valid file");
    assert_eq!(hits.len(), 1);
    assert_eq!(hits[0].class, DrumClass::HatClosed);
    assert_eq!(hits[0].time_numerator * 4, hits[0].time_denominator as u128);
}

#[test]
fn garbage_is_a_parse_error() {
    assert!(matches!(parse(b"definitely not midi"), Err(MidiError::Parse(_))));
}

#[test]
fn smpte_timing_is_rejected() {
    let bytes = smf([0xE7, 0x28], &[0x00, 0x99, 36, 100]);
    assert!(matches!(parse(&bytes), Err(MidiError::TimecodeNotSupported)));
}
