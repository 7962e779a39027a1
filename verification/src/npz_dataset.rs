//! The training dataset over tracks stored one file each, named by path: which chunks of
//! which files are samples.
//!
//! Listing the files and reading their frame counts are left to the caller.
use vstd::prelude::*;
use crate::config::{TIME_CHUNK_LENGTH, TIME_CHUNK_STRIDE};
use crate::dataset::chunk_count;

verus! {

/// One sample: load the file at `path`, and take the chunk of `TIME_CHUNK_LENGTH` frames
/// that starts at frame `frame_offset`.
#[derive(Clone, Debug)]
pub struct ChunkRef {
    pub path: String,
    pub frame_offset: usize,
}

/// Whether a track of `n_frames` frames needs one more chunk, ending at its last frame,
/// for the chunks at multiples of `TIME_CHUNK_STRIDE` to cover all its frames.
pub open spec fn needs_last_chunk(n_frames: nat) -> bool {
    n_frames >= TIME_CHUNK_LENGTH && (n_frames - TIME_CHUNK_LENGTH) as nat % (TIME_CHUNK_STRIDE as nat) != 0
}

/// The offset of chunk `k` of a track of `n_frames` frames: a multiple of
/// `TIME_CHUNK_STRIDE`, or, for the extra chunk, the last offset from which a whole chunk
/// fits.
pub open spec fn covering_offset(n_frames: nat, k: int) -> int {
    if k < chunk_count(n_frames) {
        k * TIME_CHUNK_STRIDE
    } else {
        n_frames - TIME_CHUNK_LENGTH
    }
}

/// The number of chunks that cover a track of `n_frames` frames.
pub open spec fn covering_count(n_frames: nat) -> nat {
    chunk_count(n_frames) + if needs_last_chunk(n_frames) { 1nat } else { 0nat }
}

/// The chunks of the file at `path`, which has `n_frames` frames, in order: one at every
/// multiple of `TIME_CHUNK_STRIDE` from which a whole chunk fits, then, when frames
/// remain past the last of those, one ending at the last frame.
pub open spec fn path_chunks(path: String, n_frames: nat) -> Seq<ChunkRef> {
    Seq::new(
        covering_count(n_frames),
        |k: int| ChunkRef { path, frame_offset: covering_offset(n_frames, k) as usize },
    )
}

/// The chunks of a track cover the data: every frame of a track at least one chunk long
/// lies in a chunk, and every chunk lies within the track.
pub proof fn lemma_path_chunks_cover(path: String, n_frames: nat, f: nat)
    requires
        n_frames >= TIME_CHUNK_LENGTH,
        n_frames <= usize::MAX,
        f < n_frames,
    ensures
        exists|k: int|
            0 <= k < path_chunks(path, n_frames).len() && #[trigger] path_chunks(path, n_frames)[k].frame_offset <= f
                < path_chunks(path, n_frames)[k].frame_offset + TIME_CHUNK_LENGTH,
        forall|k: int|
            0 <= k < path_chunks(path, n_frames).len() ==> #[trigger] path_chunks(path, n_frames)[k].frame_offset
                + TIME_CHUNK_LENGTH <= n_frames,
{
    let chunks = path_chunks(path, n_frames);
    let last = (n_frames - TIME_CHUNK_LENGTH) as nat;
    let count = chunk_count(n_frames);
    assert(count == last / 20 + 1);
    assert forall|k: int| 0 <= k < chunks.len() implies #[trigger] chunks[k].frame_offset + TIME_CHUNK_LENGTH
        <= n_frames by {
        if k < count {
            assert(k <= last / 20);
            assert(k * 20 <= (last / 20) * 20) by (nonlinear_arith)
                requires
                    k <= last / 20,
                    k >= 0,
            ;
            assert((last / 20) * 20 <= last) by (nonlinear_arith);
        }
    }
    if f <= last {
        let k = (f / 20) as int;
        assert(k * 20 <= f < k * 20 + 20) by (nonlinear_arith)
            requires
                k == f / 20,
        ;
        assert(k <= last / 20) by (nonlinear_arith)
            requires
                k == f / 20,
                f <= last,
        ;
        assert(k * 20 <= last);
        assert(covering_offset(n_frames, k) == k * 20);
        assert(chunks[k].frame_offset == k * 20);
    } else {
        if needs_last_chunk(n_frames) {
            assert(chunks[count as int].frame_offset == last);
        } else {
            let k = (last / 20) as int;
            assert(last == k * 20) by (nonlinear_arith)
                requires
                    k == last / 20,
                    last % 20 == 0,
            ;
            assert(k < count);
            assert(covering_offset(n_frames, k) == last);
            assert(chunks[k].frame_offset == last);
        }
    }
}

/// All chunks of the files `tracks`, each a path and its frame count: those of the first
/// file, then of the second...
pub open spec fn path_items(tracks: Seq<(String, usize)>) -> Seq<ChunkRef>
    decreases tracks.len(),
{
    if tracks.len() == 0 {
        seq![]
    } else {
        path_items(tracks.drop_last()) + path_chunks(tracks.last().0, tracks.last().1 as nat)
    }
}

/// The name, in a track archive, of the array of mel frames (one row per frame).
pub const SPEC_ARRAY_NAME: &'static str = "spec";

/// The number of rows of the two-dimensional array named `name` stored in the npz
/// archive `bytes`, when the archive holds one.
pub uninterp spec fn npz_array_rows(bytes: Seq<u8>, name: Seq<char>) -> Option<nat>;

/// `ndarray_npy::NpzReader::by_name`, on an `NpzReader` over the archive `bytes`: reads
/// the array named `name` as a two-dimensional array of `E`, and gives its number of
/// rows, or `None` where the archive or the array cannot be read.
///
/// A read that succeeds gives the row count stored in the archive. Whether it succeeds
/// also depends on the element type `E` asked for (the stored one must match), so
/// nothing is stated of a failed read.
#[verifier::external_body]
fn npz_array_row_count<E: ndarray_npy::ReadableElement>(bytes: &[u8], name: &str) -> (r: Option<usize>)
    ensures
        r matches Some(n) ==> npz_array_rows(bytes@, name@) == Some(n as nat),
{
    let mut npz = ndarray_npy::NpzReader::new(std::io::Cursor::new(bytes)).ok()?;
    let array: ndarray::Array2<E> = npz.by_name(name).ok()?;
    Some(array.nrows())
}

/// The files of `files`, each a path and its archive bytes, whose row count was read
/// (`rows`, one entry per file), each with that count, in order.
pub open spec fn readable_tracks(files: Seq<(String, Vec<u8>)>, rows: Seq<Option<usize>>) -> Seq<(String, usize)>
    decreases files.len(),
{
    if files.len() == 0 {
        seq![]
    } else {
        let before = readable_tracks(files.drop_last(), rows.take(files.len() - 1));
        match rows[files.len() - 1] {
            Some(n) => before.push((files.last().0, n)),
            None => before,
        }
    }
}

/// The samples of a dataset of track files.
pub struct EgmdDataset {
    items: Vec<ChunkRef>,
}

impl EgmdDataset {
    /// The samples, in order.
    pub closed spec fn spec_items(&self) -> Seq<ChunkRef> {
        self.items@
    }

    /// Indexes the files `tracks`, each a path and its number of frames, in the order
    /// given: a file yields a chunk at every `TIME_CHUNK_STRIDE` frames from which a whole
    /// chunk fits, and a file shorter than one chunk yields none.
    pub fn index(tracks: &[(String, usize)]) -> (r: Self)
        ensures
            r.spec_items() == path_items(tracks@),
            forall|i: int| 0 <= i < r.spec_items().len() ==> exists|t: int| 0 <= t < tracks@.len()
                && (#[trigger] r.spec_items()[i]).path == tracks@[t].0
                && r.spec_items()[i].frame_offset + TIME_CHUNK_LENGTH <= tracks@[t].1,
    {
        let mut items: Vec<ChunkRef> = Vec::new();
        let mut t: usize = 0;
        while t < tracks.len()
            invariant
                t <= tracks@.len(),
                items@ == path_items(tracks@.subrange(0, t as int)),
                forall|i: int| 0 <= i < items@.len() ==> exists|u: int| 0 <= u < t
                    && (#[trigger] items@[i]).path == tracks@[u].0
                    && items@[i].frame_offset + TIME_CHUNK_LENGTH <= tracks@[u].1,
            decreases tracks@.len() - t,
        {
            let ghost prefix = tracks@.subrange(0, t + 1);
            assert(prefix.drop_last() =~= tracks@.subrange(0, t as int));
            assert(prefix.last() == tracks@[t as int]);
            let n_frames = tracks[t].1;
            let ghost before = items@;
            if n_frames >= TIME_CHUNK_LENGTH {
                let last = n_frames - TIME_CHUNK_LENGTH;
                let mut off: usize = 0;
                let ghost mut k: nat = 0;
                while off <= last
                    invariant
                        t < tracks@.len(),
                        n_frames == tracks@[t as int].1,
                        n_frames >= TIME_CHUNK_LENGTH,
                        last == n_frames - TIME_CHUNK_LENGTH,
                        off == k * TIME_CHUNK_STRIDE,
                        k <= chunk_count(n_frames as nat),
                        chunk_count(n_frames as nat) <= covering_count(n_frames as nat),
                        items@ == before + path_chunks(tracks@[t as int].0, n_frames as nat).take(k as int),
                        forall|i: int| 0 <= i < items@.len() ==> exists|u: int| 0 <= u < t + 1
                            && (#[trigger] items@[i]).path == tracks@[u].0
                            && items@[i].frame_offset + TIME_CHUNK_LENGTH <= tracks@[u].1,
                    decreases last + TIME_CHUNK_STRIDE - off,
                {
                    let path = tracks[t].0.clone();
                    items.push(ChunkRef { path, frame_offset: off });
                    proof {
                        k = k + 1;
                        assert(items@ =~= before + path_chunks(tracks@[t as int].0, n_frames as nat).take(k as int));
                        assert forall|i: int| 0 <= i < items@.len() implies exists|u: int| 0 <= u < t + 1
                            && (#[trigger] items@[i]).path == tracks@[u].0
                            && items@[i].frame_offset + TIME_CHUNK_LENGTH <= tracks@[u].1 by {
                            if i == items@.len() - 1 {
                                assert(items@[i].path == tracks@[t as int].0);
                            }
                        }
                    }
                    off = off + TIME_CHUNK_STRIDE;
                }
                assert(k == chunk_count(n_frames as nat));
                if last % TIME_CHUNK_STRIDE != 0 {
                    let path = tracks[t].0.clone();
                    items.push(ChunkRef { path, frame_offset: last });
                    proof {
                        k = k + 1;
                        assert(items@ =~= before + path_chunks(tracks@[t as int].0, n_frames as nat).take(k as int));
                        assert forall|i: int| 0 <= i < items@.len() implies exists|u: int| 0 <= u < t + 1
                            && (#[trigger] items@[i]).path == tracks@[u].0
                            && items@[i].frame_offset + TIME_CHUNK_LENGTH <= tracks@[u].1 by {
                            if i == items@.len() - 1 {
                                assert(items@[i].path == tracks@[t as int].0);
                            }
                        }
                    }
                }
                assert(k == covering_count(n_frames as nat));
                assert(path_chunks(tracks@[t as int].0, n_frames as nat).take(k as int) =~= path_chunks(
                    tracks@[t as int].0,
                    n_frames as nat,
                ));
            } else {
                assert(path_chunks(tracks@[t as int].0, n_frames as nat) =~= Seq::<ChunkRef>::empty());
                assert(items@ =~= before + path_chunks(tracks@[t as int].0, n_frames as nat));
            }
            t = t + 1;
        }
        assert(tracks@.subrange(0, tracks@.len() as int) =~= tracks@);
        EgmdDataset { items }
    }

    /// Indexes the npz archives `files`, each a path and the archive's bytes, in the order
    /// given: the number of frames of a file is the number of rows of its array `spec`,
    /// read as elements of `E`; a file whose array cannot be read is skipped. The chunks
    /// are those of [`EgmdDataset::index`] over the files read.
    pub fn index_npz<E: ndarray_npy::ReadableElement>(files: &[(String, Vec<u8>)]) -> (r: Self)
        ensures
            exists|rows: Seq<Option<usize>>|
                {
                    &&& rows.len() == files@.len()
                    &&& forall|i: int| 0 <= i < files@.len() ==> (#[trigger] rows[i] matches Some(n) ==> npz_array_rows(
                        files@[i].1@,
                        SPEC_ARRAY_NAME@,
                    ) == Some(n as nat))
                    &&& r.spec_items() == path_items(#[trigger] readable_tracks(files@, rows))
                },
    {
        let mut tracks: Vec<(String, usize)> = Vec::new();
        let ghost mut rows: Seq<Option<usize>> = seq![];
        let mut i: usize = 0;
        while i < files.len()
            invariant
                i <= files@.len(),
                rows.len() == i,
                forall|j: int| 0 <= j < i ==> (#[trigger] rows[j] matches Some(n) ==> npz_array_rows(files@[j].1@, SPEC_ARRAY_NAME@) == Some(
                    n as nat,
                )),
                tracks@ == readable_tracks(files@.take(i as int), rows),
            decreases files@.len() - i,
        {
            let count = npz_array_row_count::<E>(files[i].1.as_slice(), SPEC_ARRAY_NAME);
            let ghost prefix = files@.take(i + 1);
            let ghost rows_before = rows;
            let ghost tracks_before = tracks@;
            proof {
                rows = rows.push(count);
                assert(prefix.drop_last() =~= files@.take(i as int));
                assert(rows.take(i as int) =~= rows_before);
                assert(prefix.last() == files@[i as int]);
                assert(readable_tracks(prefix, rows) == match count {
                    Some(n) => tracks_before.push((files@[i as int].0, n)),
                    None => tracks_before,
                });
            }
            match count {
                Some(n) => {
                    let path = files[i].0.clone();
                    tracks.push((path, n));
                },
                None => {},
            }
            i = i + 1;
        }
        assert(files@.take(files@.len() as int) =~= files@);
        let r = Self::index(tracks.as_slice());
        assert(r.spec_items() == path_items(readable_tracks(files@, rows)));
        r
    }

    /// The number of samples.
    pub fn len(&self) -> (r: usize)
        ensures
            r == self.spec_items().len(),
    {
        self.items.len()
    }

    /// The sample at `index`, if there is one.
    pub fn get(&self, index: usize) -> (r: Option<ChunkRef>)
        ensures
            r == if index < self.spec_items().len() {
                Some(self.spec_items()[index as int])
            } else {
                None
            },
    {
        if index < self.items.len() {
            let item = &self.items[index];
            Some(ChunkRef { path: item.path.clone(), frame_offset: item.frame_offset })
        } else {
            None
        }
    }
}

} // verus!
