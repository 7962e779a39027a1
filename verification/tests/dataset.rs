use band::chunk::{read_chunk, FRAME_BYTES};
use band::config::{INSTRUMENT_COUNT, MEL_FREQ_COUNT, TIME_CHUNK_LENGTH};
use band::dataset::{frame_count, ChunkBatcher, ChunkRef, EgmdDataset, TrackFile};

#[test]
fn frame_count_keeps_whole_tracks_of_at_least_one_chunk() {
    assert_eq!(frame_count(FRAME_BYTES * 300), Some(300));
    assert_eq!(frame_count(FRAME_BYTES * TIME_CHUNK_LENGTH), Some(TIME_CHUNK_LENGTH));
    assert_eq!(frame_count(FRAME_BYTES * (TIME_CHUNK_LENGTH - 1)), None);
    assert_eq!(frame_count(FRAME_BYTES * 300 + 1), None);
    assert_eq!(frame_count(0), None);
}

#[test]
fn index_slides_chunks_with_stride() {
    let sizes = [FRAME_BYTES * 256, 100, FRAME_BYTES * 300];
    let ds = EgmdDataset::index(&sizes);
    assert_eq!(ds.files(), &[TrackFile { source: 0, n_frames: 256 }, TrackFile { source: 2, n_frames: 300 }]);
    let items: Vec<ChunkRef> = (0..ds.len()).map(|i| ds.get(i).unwrap()).collect();
    assert_eq!(
        items,
        vec![
            ChunkRef { file_idx: 0, frame_offset: 0 },
            ChunkRef { file_idx: 1, frame_offset: 0 },
            ChunkRef { file_idx: 1, frame_offset: 20 },
            ChunkRef { file_idx: 1, frame_offset: 40 },
        ]
    );
    assert_eq!(ds.get(4), None);
}

#[test]
fn split_keeps_every_sample_once() {
    let sizes = [FRAME_BYTES * 400, FRAME_BYTES * 500];
    let ds = EgmdDataset::index(&sizes);
    let n = ds.len();
    let mut all: Vec<(usize, usize)> = (0..n).map(|i| ds.get(i).unwrap()).map(|c| (c.file_idx, c.frame_offset)).collect();
    let cut = n * 8 / 10;
    let (train, valid) = ds.split(cut, 42);
    assert_eq!(train.len(), cut);
    assert_eq!(valid.len(), n - cut);
    assert_eq!(train.files(), valid.files());
    let mut parts: Vec<(usize, usize)> = (0..train.len())
        .map(|i| train.get(i).unwrap())
        .chain((0..valid.len()).map(|i| valid.get(i).unwrap()))
        .map(|c| (c.file_idx, c.frame_offset))
        .collect();
    all.sort();
    parts.sort();
    assert_eq!(all, parts);
}

fn track_bytes(n_frames: usize, seed: u32) -> Vec<u8> {
    let mels: Vec<[u32; MEL_FREQ_COUNT]> =
        (0..n_frames).map(|f| std::array::from_fn(|m| seed * 100_000 + (f * 131 + m) as u32)).collect();
    let onsets: Vec<[u8; INSTRUMENT_COUNT]> = (0..n_frames).map(|f| std::array::from_fn(|c| ((f + c) % 2) as u8)).collect();
    let actives: Vec<[u8; INSTRUMENT_COUNT]> = (0..n_frames).map(|f| std::array::from_fn(|c| ((f + c) % 3 == 0) as u8)).collect();
    band::chunk::write(&mels, &onsets, &actives)
}

#[test]
fn batch_lays_chunks_out_in_order() {
    let t0 = track_bytes(280, 1);
    let t1 = track_bytes(300, 2);
    let ds = EgmdDataset::index(&[t0.len(), t1.len()]);
    let batcher = ChunkBatcher::new(&ds);
    let items = [ds.get(2).unwrap(), ds.get(0).unwrap()];
    let tracks: [&[u8]; 2] = [&t0, &t1];
    let batch = batcher.batch(&tracks, &items);
    let first = read_chunk(tracks[items[0].file_idx], items[0].frame_offset);
    let second = read_chunk(tracks[items[1].file_idx], items[1].frame_offset);
    assert_eq!(batch.mels.len(), 2 * TIME_CHUNK_LENGTH * MEL_FREQ_COUNT);
    assert_eq!(batch.mels, [first.mels.clone(), second.mels.clone()].concat());
    assert_eq!(batch.onsets, [first.onsets.clone(), second.onsets.clone()].concat());
    assert_eq!(batch.actives, [first.actives, second.actives].concat());
}

#[test]
fn split_shuffles_before_cutting() {
    let sizes = [FRAME_BYTES * 1000];
    let ds = EgmdDataset::index(&sizes);
    let n = ds.len();
    assert!(n > 30);
    let in_index_order: Vec<ChunkRef> = (0..n).map(|i| ds.get(i).unwrap()).collect();
    let (train, valid) = ds.split(n / 2, 7);
    let shuffled: Vec<ChunkRef> =
        (0..train.len()).map(|i| train.get(i).unwrap()).chain((0..valid.len()).map(|i| valid.get(i).unwrap())).collect();
    assert_ne!(in_index_order, shuffled);
}
