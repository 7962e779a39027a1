//! Geometry of the live spectrogram view: which frequency bins each display row covers.
//!
//! The rows are spaced evenly on a logarithmic frequency scale; the caller computes each
//! row's edge frequencies in bins (rounded outwards), and the ranges are clamped here.
use vstd::prelude::*;

verus! {

/// Number of frequency bins of the spectral frames shown.
pub const N_BINS: usize = 1025;

/// Number of display rows of the spectrogram image.
pub const DISPLAY_ROWS: usize = 256;

/// The bins a display row covers, from the bin its lower edge falls in (`raw_lo`, rounded
/// down) to the bin past its upper edge (`raw_hi`, rounded up): the start is kept within
/// the spectrum, and the end kept past the start, and within the spectrum.
pub open spec fn row_range(raw_lo: usize, raw_hi: usize) -> (usize, usize) {
    let lo = if raw_lo < N_BINS - 1 { raw_lo } else { (N_BINS - 1) as usize };
    let hi = if raw_hi < lo + 1 {
        (lo + 1) as usize
    } else if raw_hi > N_BINS {
        N_BINS
    } else {
        raw_hi
    };
    (lo, hi)
}

/// The bin ranges of the display rows whose edges, in bins, are `edges`: one range per
/// row, each clamped by `row_range`. Every range holds at least one bin of the spectrum.
pub fn build_row_ranges(edges: &[(usize, usize)]) -> (r: Vec<(usize, usize)>)
    ensures
        r@.len() == edges@.len(),
        forall|i: int| 0 <= i < edges@.len() ==> #[trigger] r@[i] == row_range(edges@[i].0, edges@[i].1),
        forall|i: int| 0 <= i < r@.len() ==> #[trigger] r@[i].0 < r@[i].1 && r@[i].1 <= N_BINS,
{
    let mut ranges: Vec<(usize, usize)> = Vec::new();
    let mut i: usize = 0;
    while i < edges.len()
        invariant
            i <= edges@.len(),
            ranges@.len() == i,
            forall|j: int| 0 <= j < i ==> #[trigger] ranges@[j] == row_range(edges@[j].0, edges@[j].1),
            forall|j: int| 0 <= j < i ==> #[trigger] ranges@[j].0 < ranges@[j].1 && ranges@[j].1 <= N_BINS,
        decreases edges@.len() - i,
    {
        let (raw_lo, raw_hi) = edges[i];
        let lo = if raw_lo < N_BINS - 1 {
            raw_lo
        } else {
            N_BINS - 1
        };
        let hi = if raw_hi < lo + 1 {
            lo + 1
        } else if raw_hi > N_BINS {
            N_BINS
        } else {
            raw_hi
        };
        ranges.push((lo, hi));
        i = i + 1;
    }
    ranges
}

} // verus!
