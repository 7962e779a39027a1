use band::chunk::{read_chunk, FRAME_BYTES};
use band::config::{INSTRUMENT_COUNT, MEL_FREQ_COUNT, TIME_CHUNK_LENGTH};
use band::midi::MidiError;
use band::preprocess::process_one;

fn smf(division: [u8; 2], events: &[u8]) -> Vec<u8> {
    let mut bytes = b"MThd".to_vec();
    bytes.extend_from_slice(&[0, 0, 0, 6, 0, 0, 0, 1]);
    bytes.extend_from_slice(&division);
    bytes.extend_from_slice(b"MTrk");
    bytes.extend_from_slice(&((events.len() + 4) as u32).to_be_bytes());
    bytes.extend_from_slice(events);
    bytes.extend_from_slice(&[0x00, 0xFF, 0x2F, 0x00]);
    bytes
}

#[test]
fn processed_track_holds_mels_and_labels() {
    let n_frames = 300;
    let mels: Vec<[u32; MEL_FREQ_COUNT]> = (0..n_frames).map(|f| std::array::from_fn(|m| (f * 7 + m) as u32)).collect();
    /* kick at 0 s, snare at 0.5 s (frame 50) */
    let midi = smf([0x01, 0xE0], &[0x00, 0x99, 36, 100, 0x83, 0x60, 0x99, 38, 100]);
    let bytes = process_one(&mels, &midi).expect("processed");
    assert_eq!(bytes.len(), n_frames * FRAME_BYTES);
    let chunk = read_chunk(&bytes, 0);
    for f in 0..TIME_CHUNK_LENGTH {
        assert_eq!(chunk.mels[f * MEL_FREQ_COUNT + 5], mels[f][5]);
        for c in 0..INSTRUMENT_COUNT {
            let onset = (f == 0 && c == 0) || (f == 50 && c == 1);
            let active = c == 0 || (c == 1 && f >= 50);
            assert_eq!(chunk.onsets[f * INSTRUMENT_COUNT + c], onset as u8, "onset f={f} c={c}");
            assert_eq!(chunk.actives[f * INSTRUMENT_COUNT + c], active as u8, "active f={f} c={c}");
        }
    }
}

#[test]
fn unparsable_midi_fails_processing() {
    let mels = vec![[0u32; MEL_FREQ_COUNT]; 10];
    assert!(matches!(process_one(&mels, b"MThd"), Err(MidiError::Parse(_))));
}

#[test]
fn smpte_midi_fails_processing() {
    let mels = vec![[0u32; MEL_FREQ_COUNT]; 10];
    let midi = smf([0xE7, 0x28], &[]);
    assert!(matches!(process_one(&mels, &midi), Err(MidiError::TimecodeNotSupported)));
}
