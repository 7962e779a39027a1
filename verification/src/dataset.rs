//! The training dataset over processed tracks: which chunks of which track files are
//! samples, and how a batch of samples is read out of the tracks' bytes.
//!
//! Finding the track files and mapping them into memory is left to the caller, which
//! hands over the file sizes to index and the mapped bytes to read from.
use vstd::prelude::*;
use crate::chunk::{ChunkData, FRAME_BYTES, read_chunk, chunk_mels, chunk_labels, ONSETS_OFFSET, ACTIVES_OFFSET};
use crate::config::{TIME_CHUNK_LENGTH, TIME_CHUNK_STRIDE};
use rand::SeedableRng;
use rand::seq::SliceRandom;

verus! {

/// One sample: the chunk of `TIME_CHUNK_LENGTH` frames that starts at frame
/// `frame_offset` of the indexed track file number `file_idx`.
#[derive(Clone, Copy, Debug, PartialEq, Eq, Structural)]
pub struct ChunkRef {
    pub file_idx: usize,
    pub frame_offset: usize,
}

/// An indexed track file: its position `source` among the files that were offered to
/// the index, and its number of frames.
#[derive(Clone, Copy, Debug, PartialEq, Eq, Structural)]
pub struct TrackFile {
    pub source: usize,
    pub n_frames: usize,
}

/// The number of frames of a track file of `size` bytes, if the dataset indexes it: a file
/// is indexed when it holds a whole number of frames, and at least one chunk of them.
pub open spec fn spec_frame_count(size: nat) -> Option<nat> {
    if size % (FRAME_BYTES as nat) == 0 && size / (FRAME_BYTES as nat) >= TIME_CHUNK_LENGTH {
        Some(size / (FRAME_BYTES as nat))
    } else {
        None
    }
}

/// How many chunks a track of `n_frames` frames yields: one at every multiple of
/// `TIME_CHUNK_STRIDE` from which a whole chunk fits.
pub open spec fn chunk_count(n_frames: nat) -> nat {
    if n_frames < TIME_CHUNK_LENGTH {
        0
    } else {
        ((n_frames - TIME_CHUNK_LENGTH) as nat / TIME_CHUNK_STRIDE as nat + 1) as nat
    }
}

/// The chunks of the indexed file number `file_idx`, which has `n_frames` frames, in order.
pub open spec fn file_chunks(file_idx: nat, n_frames: nat) -> Seq<ChunkRef> {
    Seq::new(
        chunk_count(n_frames),
        |k: int| ChunkRef { file_idx: file_idx as usize, frame_offset: (k * TIME_CHUNK_STRIDE) as usize },
    )
}

/// The files indexed out of files of the given sizes, in the order they were offered.
pub open spec fn indexed_files(sizes: Seq<usize>) -> Seq<TrackFile>
    decreases sizes.len(),
{
    if sizes.len() == 0 {
        seq![]
    } else {
        let before = indexed_files(sizes.drop_last());
        match spec_frame_count(sizes.last() as nat) {
            Some(n) => before.push(TrackFile { source: (sizes.len() - 1) as usize, n_frames: n as usize }),
            None => before,
        }
    }
}

/// All chunks of the given indexed files: those of the first file, then of the second...
pub open spec fn indexed_items(files: Seq<TrackFile>) -> Seq<ChunkRef>
    decreases files.len(),
{
    if files.len() == 0 {
        seq![]
    } else {
        indexed_items(files.drop_last()) + file_chunks((files.len() - 1) as nat, files.last().n_frames as nat)
    }
}

/// The chunk `item` lies within the frames of its file.
pub open spec fn chunk_in_bounds(files: Seq<TrackFile>, item: ChunkRef) -> bool {
    &&& item.file_idx < files.len()
    &&& item.frame_offset + TIME_CHUNK_LENGTH <= files[item.file_idx as int].n_frames
}

/// Frame count of a track file of `size` bytes, or `None` if the dataset skips the file
/// (its size is not a whole number of frames, or it is shorter than one chunk).
pub fn frame_count(size: usize) -> (r: Option<usize>)
    ensures
        match spec_frame_count(size as nat) {
            None => r is None,
            Some(n) => r == Some(n as usize),
        },
{
    if size % FRAME_BYTES != 0 {
        return None;
    }
    let n_frames = size / FRAME_BYTES;
    if n_frames < TIME_CHUNK_LENGTH {
        return None;
    }
    Some(n_frames)
}

/// The indexed chunks of a dataset, over the frame counts of its track files.
pub struct EgmdDataset {
    files: Vec<TrackFile>,
    items: Vec<ChunkRef>,
}

impl EgmdDataset {
    /// The indexed files.
    pub closed spec fn spec_files(&self) -> Seq<TrackFile> {
        self.files@
    }

    /// The samples, in order.
    pub closed spec fn spec_items(&self) -> Seq<ChunkRef> {
        self.items@
    }

    /// Every sample lies within the frames of its file, and every file's bytes can be
    /// addressed.
    pub open spec fn wf(&self) -> bool {
        &&& forall|i: int| 0 <= i < self.spec_items().len() ==> chunk_in_bounds(self.spec_files(), #[trigger] self.spec_items()[i])
        &&& forall|j: int| 0 <= j < self.spec_files().len() ==> #[trigger] self.spec_files()[j].n_frames * FRAME_BYTES <= usize::MAX
    }

    /// Indexes the track files of the given sizes, in the order given: each file that
    /// holds a whole number of frames and at least one chunk is kept, and yields a chunk
    /// at every `TIME_CHUNK_STRIDE` frames from which a whole chunk fits.
    pub fn index(sizes: &[usize]) -> (r: Self)
        ensures
            r.spec_files() == indexed_files(sizes@),
            r.spec_items() == indexed_items(indexed_files(sizes@)),
            r.wf(),
    {
        let mut files: Vec<TrackFile> = Vec::new();
        let mut items: Vec<ChunkRef> = Vec::new();
        let mut s: usize = 0;
        while s < sizes.len()
            invariant
                s <= sizes@.len(),
                files@ == indexed_files(sizes@.subrange(0, s as int)),
                items@ == indexed_items(files@),
                forall|i: int| 0 <= i < items@.len() ==> chunk_in_bounds(files@, #[trigger] items@[i]),
                forall|j: int| 0 <= j < files@.len() ==> #[trigger] files@[j].n_frames * FRAME_BYTES <= usize::MAX,
            decreases sizes@.len() - s,
        {
            let ghost prefix = sizes@.subrange(0, s + 1);
            assert(prefix.drop_last() =~= sizes@.subrange(0, s as int));
            match frame_count(sizes[s]) {
                None => {},
                Some(n_frames) => {
                    let file_idx = files.len();
                    let ghost old_files = files@;
                    assert(n_frames * FRAME_BYTES <= sizes@[s as int]) by (nonlinear_arith)
                        requires
                            n_frames == sizes@[s as int] / FRAME_BYTES,
                            FRAME_BYTES > 0,
                    ;
                    files.push(TrackFile { source: s, n_frames });
                    let ghost before = items@;
                    assert(files@.drop_last() =~= old_files);
                    assert(prefix.last() == sizes@[s as int]);
                    let last = n_frames - TIME_CHUNK_LENGTH;
                    let mut off: usize = 0;
                    let ghost mut k: nat = 0;
                    while off <= last
                        invariant
                            file_idx + 1 == files@.len(),
                            files@[file_idx as int].n_frames == n_frames,
                            n_frames >= TIME_CHUNK_LENGTH,
                            n_frames * FRAME_BYTES <= usize::MAX,
                            last == n_frames - TIME_CHUNK_LENGTH,
                            off == k * TIME_CHUNK_STRIDE,
                            k <= chunk_count(n_frames as nat),
                            items@ == before + file_chunks(file_idx as nat, n_frames as nat).take(k as int),
                            forall|i: int| 0 <= i < items@.len() ==> chunk_in_bounds(files@, #[trigger] items@[i]),
                        decreases last + TIME_CHUNK_STRIDE - off,
                    {
                        items.push(ChunkRef { file_idx, frame_offset: off });
                        proof {
                            k = k + 1;
                            assert(items@ =~= before + file_chunks(file_idx as nat, n_frames as nat).take(k as int));
                        }
                        off = off + TIME_CHUNK_STRIDE;
                    }
                    assert(k == chunk_count(n_frames as nat));
                    assert(file_chunks(file_idx as nat, n_frames as nat).take(k as int)
                        =~= file_chunks(file_idx as nat, n_frames as nat));
                    assert(files@.last() == TrackFile { source: s, n_frames });
                },
            }
            s = s + 1;
        }
        assert(sizes@.subrange(0, sizes@.len() as int) =~= sizes@);
        EgmdDataset { files, items }
    }

    /// The number of samples.
    pub fn len(&self) -> (r: usize)
        ensures
            r == self.spec_items().len(),
    {
        self.items.len()
    }

    /// The sample at `index`, if there is one.
    pub fn get(&self, index: usize) -> (r: Option<ChunkRef>)
        ensures
            r == if index < self.spec_items().len() {
                Some(self.spec_items()[index as int])
            } else {
                None
            },
    {
        if index < self.items.len() {
            Some(self.items[index])
        } else {
            None
        }
    }

    /// The indexed files, in the order their sizes were offered.
    pub fn files(&self) -> (r: &[TrackFile])
        ensures
            r@ == self.spec_files(),
    {
        self.files.as_slice()
    }

    /// Shuffles the samples with a generator seeded by `seed`, and splits them in two: the
    /// first `cut` for training, the rest for validation. Both halves keep all files.
    pub fn split(self, cut: usize, seed: u64) -> (r: (Self, Self))
        requires
            self.wf(),
            cut <= self.spec_items().len(),
        ensures
            r.0.wf(),
            r.1.wf(),
            r.0.spec_files() == self.spec_files(),
            r.1.spec_files() == self.spec_files(),
            r.0.spec_items().len() == cut,
            (r.0.spec_items() + r.1.spec_items()).to_multiset() == self.spec_items().to_multiset(),
    {
        broadcast use vstd::seq_lib::group_to_multiset_ensures;
        let ghost unshuffled = self.items@;
        let mut items = self.items;
        shuffle_chunks(&mut items, seed);
        let ghost shuffled = items@;
        assert(shuffled.len() == unshuffled.len()) by {
            assert(shuffled.to_multiset().len() == shuffled.len());
            assert(unshuffled.to_multiset().len() == unshuffled.len());
        }
        let valid_items = items.split_off(cut);
        proof {
            shuffled.lemma_split_at(cut as int);
            vstd::seq_lib::lemma_multiset_commutative(items@, valid_items@);
            assert(items@ + valid_items@ =~= shuffled);
            assert forall|x: ChunkRef| shuffled.contains(x) implies chunk_in_bounds(self.files@, x) by {
                assert(shuffled.to_multiset().count(x) > 0);
                assert(unshuffled.contains(x));
                let i = choose|i: int| 0 <= i < unshuffled.len() && unshuffled[i] == x;
                assert(self.spec_items()[i] == x);
            }
            assert forall|i: int| 0 <= i < items@.len() implies chunk_in_bounds(self.files@, #[trigger] items@[i]) by {
                assert(shuffled[i] == items@[i]);
                assert(shuffled.contains(items@[i]));
            }
            assert forall|i: int| 0 <= i < valid_items@.len() implies chunk_in_bounds(self.files@, #[trigger] valid_items@[i]) by {
                assert(shuffled[cut + i] == valid_items@[i]);
                assert(shuffled.contains(valid_items@[i]));
            }
        }
        let files = self.files;
        let mut valid_files: Vec<TrackFile> = Vec::new();
        let mut j: usize = 0;
        while j < files.len()
            invariant
                j <= files@.len(),
                valid_files@ == files@.subrange(0, j as int),
            decreases files@.len() - j,
        {
            valid_files.push(files[j]);
            j = j + 1;
            assert(valid_files@ =~= files@.subrange(0, j as int));
        }
        assert(valid_files@ =~= files@);
        let train = EgmdDataset { files, items };
        let valid = EgmdDataset { files: valid_files, items: valid_items };
        assert(train.spec_files() == self.spec_files());
        assert(valid.spec_files() == self.spec_files());
        assert(forall|i: int| 0 <= i < train.spec_items().len() ==> chunk_in_bounds(train.spec_files(), #[trigger] train.spec_items()[i]));
        assert(forall|i: int| 0 <= i < valid.spec_items().len() ==> chunk_in_bounds(valid.spec_files(), #[trigger] valid.spec_items()[i]));
        (train, valid)
    }
}

/// `rand::seq::SliceRandom::shuffle` with a `rand::rngs::StdRng` seeded from `seed`:
/// reorders the chunks. The generator's output may differ across library versions and
/// platforms, so only what holds of every outcome is stated: the same chunks, each as
/// many times, in some order (the shuffle only swaps elements).
#[verifier::external_body]
fn shuffle_chunks(items: &mut Vec<ChunkRef>, seed: u64)
    ensures
        final(items)@.to_multiset() == old(items)@.to_multiset(),
{
    let mut rng = rand::rngs::StdRng::seed_from_u64(seed);
    items.as_mut_slice().shuffle(&mut rng);
}

/// The mel values of a batch: the chunks of the samples, one after the other.
pub open spec fn batch_mels(tracks: Seq<Seq<u8>>, items: Seq<ChunkRef>) -> Seq<u32>
    decreases items.len(),
{
    if items.len() == 0 {
        seq![]
    } else {
        batch_mels(tracks, items.drop_last()) + chunk_mels(
            tracks[items.last().file_idx as int],
            items.last().frame_offset as nat,
        )
    }
}

/// The labels of a batch that start at `offset` in each frame: those of the chunks of
/// the samples, one after the other.
pub open spec fn batch_labels(tracks: Seq<Seq<u8>>, items: Seq<ChunkRef>, offset: int) -> Seq<u8>
    decreases items.len(),
{
    if items.len() == 0 {
        seq![]
    } else {
        batch_labels(tracks, items.drop_last(), offset) + chunk_labels(
            tracks[items.last().file_idx as int],
            items.last().frame_offset as nat,
            offset,
        )
    }
}

/// Reads batches of samples out of the bytes of the indexed track files.
pub struct ChunkBatcher {
    files: Vec<TrackFile>,
}

impl ChunkBatcher {
    /// The files the batcher reads from.
    pub closed spec fn spec_files(&self) -> Seq<TrackFile> {
        self.files@
    }

    /// A batcher over the files of `dataset`.
    pub fn new(dataset: &EgmdDataset) -> (r: Self)
        ensures
            r.spec_files() == dataset.spec_files(),
    {
        let files = dataset.files();
        let mut copy: Vec<TrackFile> = Vec::new();
        let mut j: usize = 0;
        while j < files.len()
            invariant
                j <= files@.len(),
                copy@ == files@.subrange(0, j as int),
            decreases files@.len() - j,
        {
            copy.push(files[j]);
            j = j + 1;
            assert(copy@ =~= files@.subrange(0, j as int));
        }
        assert(copy@ =~= files@);
        ChunkBatcher { files: copy }
    }

    /// Reads the samples `items` out of `tracks`, the bytes of the files in index order,
    /// and lays their chunks out one after the other.
    pub fn batch(&self, tracks: &[&[u8]], items: &[ChunkRef]) -> (r: ChunkData)
        requires
            tracks@.len() == self.spec_files().len(),
            forall|j: int| 0 <= j < tracks@.len() ==> (#[trigger] tracks@[j])@.len() == self.spec_files()[j].n_frames * FRAME_BYTES,
            forall|i: int| 0 <= i < items@.len() ==> chunk_in_bounds(self.spec_files(), #[trigger] items@[i]),
        ensures
            r.mels@ == batch_mels(tracks@.map_values(|t: &[u8]| t@), items@),
            r.onsets@ == batch_labels(tracks@.map_values(|t: &[u8]| t@), items@, ONSETS_OFFSET as int),
            r.actives@ == batch_labels(tracks@.map_values(|t: &[u8]| t@), items@, ACTIVES_OFFSET as int),
    {
        let ghost bytes = tracks@.map_values(|t: &[u8]| t@);
        let mut mels: Vec<u32> = Vec::new();
        let mut onsets: Vec<u8> = Vec::new();
        let mut actives: Vec<u8> = Vec::new();
        let mut i: usize = 0;
        while i < items.len()
            invariant
                i <= items@.len(),
                bytes == tracks@.map_values(|t: &[u8]| t@),
                tracks@.len() == self.spec_files().len(),
                forall|j: int| 0 <= j < tracks@.len() ==> (#[trigger] tracks@[j])@.len() == self.spec_files()[j].n_frames * FRAME_BYTES,
                forall|k: int| 0 <= k < items@.len() ==> chunk_in_bounds(self.spec_files(), #[trigger] items@[k]),
                mels@ == batch_mels(bytes, items@.subrange(0, i as int)),
                onsets@ == batch_labels(bytes, items@.subrange(0, i as int), ONSETS_OFFSET as int),
                actives@ == batch_labels(bytes, items@.subrange(0, i as int), ACTIVES_OFFSET as int),
            decreases items@.len() - i,
        {
            let item = items[i];
            assert(chunk_in_bounds(self.spec_files(), items@[i as int]));
            let track = tracks[item.file_idx];
            proof {
                let n = self.spec_files()[item.file_idx as int].n_frames;
                assert((item.frame_offset + TIME_CHUNK_LENGTH) * FRAME_BYTES <= n * FRAME_BYTES) by (nonlinear_arith)
                    requires
                        item.frame_offset + TIME_CHUNK_LENGTH <= n,
                ;
            }
            let mut chunk = read_chunk(track, item.frame_offset);
            mels.append(&mut chunk.mels);
            onsets.append(&mut chunk.onsets);
            actives.append(&mut chunk.actives);
            let ghost done = items@.subrange(0, i + 1);
            assert(done.drop_last() =~= items@.subrange(0, i as int));
            assert(bytes[item.file_idx as int] == track@);
            i = i + 1;
        }
        assert(items@.subrange(0, items@.len() as int) =~= items@);
        ChunkData { mels, onsets, actives }
    }
}

} // verus!
