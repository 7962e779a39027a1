use band::chunk::{build_labels, hit_frame, read_chunk, FRAME_BYTES};
use band::config::{INSTRUMENT_COUNT, MEL_FREQ_COUNT, TIME_CHUNK_LENGTH};
use band::drum::DrumClass;
use band::midi::DrumHit;

fn hit(numerator: u128, denominator: u64, class: DrumClass) -> DrumHit {
    DrumHit { time_numerator: numerator, time_denominator: denominator, class }
}

#[test]
fn hit_frame_rounds_to_nearest_frame() {
    /* 0.5 s -> frame 50; 0.004 s -> 0; 0.005 s -> tie goes to frame 1; 0.0149 s -> 1 */
    assert_eq!(hit_frame(&hit(1, 2, DrumClass::Kick)), Some(50));
    assert_eq!(hit_frame(&hit(4, 1000, DrumClass::Kick)), Some(0));
    assert_eq!(hit_frame(&hit(5, 1000, DrumClass::Kick)), Some(1));
    assert_eq!(hit_frame(&hit(149, 10000, DrumClass::Kick)), Some(1));
}

#[test]
fn hit_with_zero_denominator_has_no_frame() {
    assert_eq!(hit_frame(&hit(7, 0, DrumClass::Snare)), None);
}

#[test]
fn labels_mark_onset_and_active_span() {
    let hits = [hit(1, 2, DrumClass::Snare), hit(0, 1, DrumClass::Kick)];
    let n_frames = 400;
    let (onsets, actives) = build_labels(&hits, n_frames);
    assert_eq!(onsets.len(), n_frames);
    assert_eq!(actives.len(), n_frames);
    for f in 0..n_frames {
        for c in 0..INSTRUMENT_COUNT {
            let onset = (f == 50 && c == 1) || (f == 0 && c == 0);
            let active = (c == 1 && (50..50 + TIME_CHUNK_LENGTH).contains(&f)) || (c == 0 && f < TIME_CHUNK_LENGTH);
            assert_eq!(onsets[f][c], onset as u8, "onset f={f} c={c}");
            assert_eq!(actives[f][c], active as u8, "active f={f} c={c}");
        }
    }
}

#[test]
fn hits_beyond_the_grid_mark_nothing() {
    let hits = [hit(10, 1, DrumClass::Tom)]; /* frame 1000 */
    let (onsets, actives) = build_labels(&hits, 100);
    assert!(onsets.iter().all(|row| row.iter().all(|&v| v == 0)));
    assert!(actives.iter().all(|row| row.iter().all(|&v| v == 0)));
}

fn track(n_frames: usize) -> (Vec<[u32; MEL_FREQ_COUNT]>, Vec<[u8; INSTRUMENT_COUNT]>, Vec<[u8; INSTRUMENT_COUNT]>) {
    let mels: Vec<[u32; MEL_FREQ_COUNT]> =
        (0..n_frames).map(|f| std::array::from_fn(|m| (f * 1000 + m) as u32 * 0x0101)).collect();
    let onsets: Vec<[u8; INSTRUMENT_COUNT]> = (0..n_frames).map(|f| std::array::from_fn(|c| ((f + c) % 5 == 0) as u8)).collect();
    let actives: Vec<[u8; INSTRUMENT_COUNT]> = (0..n_frames).map(|f| std::array::from_fn(|c| ((f * c) % 3 == 0) as u8)).collect();
    (mels, onsets, actives)
}

#[test]
fn written_track_layout_is_mels_then_labels() {
    let (mels, onsets, actives) = track(3);
    let bytes = band::chunk::write(&mels, &onsets, &actives);
    assert_eq!(bytes.len(), 3 * FRAME_BYTES);
    assert_eq!(FRAME_BYTES, 528);
    let f1 = &bytes[FRAME_BYTES..2 * FRAME_BYTES];
    assert_eq!(&f1[4 * 7..4 * 7 + 4], &mels[1][7].to_le_bytes());
    assert_eq!(&f1[512..520], &onsets[1]);
    assert_eq!(&f1[520..528], &actives[1]);
}

#[test]
fn chunk_read_back_from_written_track() {
    let n_frames = TIME_CHUNK_LENGTH + 30;
    let (mels, onsets, actives) = track(n_frames);
    let bytes = band::chunk::write(&mels, &onsets, &actives);
    let offset = 20;
    let chunk = read_chunk(&bytes, offset);
    assert_eq!(chunk.mels.len(), TIME_CHUNK_LENGTH * MEL_FREQ_COUNT);
    assert_eq!(chunk.onsets.len(), TIME_CHUNK_LENGTH * INSTRUMENT_COUNT);
    for f in 0..TIME_CHUNK_LENGTH {
        for m in 0..MEL_FREQ_COUNT {
            assert_eq!(chunk.mels[f * MEL_FREQ_COUNT + m], mels[offset + f][m]);
        }
        for c in 0..INSTRUMENT_COUNT {
            assert_eq!(chunk.onsets[f * INSTRUMENT_COUNT + c], onsets[offset + f][c]);
            assert_eq!(chunk.actives[f * INSTRUMENT_COUNT + c], actives[offset + f][c]);
        }
    }
}

#[test]
fn mel_bits_survive_as_floats() {
    let value: f32 = -12.375;
    let mut mels = vec![[0u32; MEL_FREQ_COUNT]; TIME_CHUNK_LENGTH];
    mels[3][9] = value.to_bits();
    let labels = vec![[0u8; INSTRUMENT_COUNT]; TIME_CHUNK_LENGTH];
    let bytes = band::chunk::write(&mels, &labels, &labels);
    let chunk = read_chunk(&bytes, 0);
    assert_eq!(f32::from_bits(chunk.mels[3 * MEL_FREQ_COUNT + 9]), value);
}
