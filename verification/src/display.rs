//! State of the live onset display: per instrument, a hit marker that stays lit for a few
//! frames after each onset, and a running count of onsets (rising edges of the detector
//! over its threshold).
//!
//! Thresholding the model's probabilities and drawing the terminal lines are left to the
//! caller.
use vstd::prelude::*;
use crate::drum::DrumClass;
use crate::config::INSTRUMENT_COUNT;

verus! {

/// How many frames a hit marker stays lit.
pub const FLASH_FRAMES: u32 = 6;

/// The display state of one instrument.
#[derive(Clone, Copy, Debug, PartialEq, Eq, Structural)]
pub struct Indicator {
    /// Frames left for which the hit marker stays lit.
    pub flash: u32,
    /// Whether the detector was over its threshold at the previous frame.
    pub on: bool,
    /// Onsets counted so far.
    pub hits: u64,
}

/// Whether the frame where the detector reads `on` is an onset: a rising edge.
pub open spec fn is_rising(s: Indicator, on: bool) -> bool {
    on && !s.on
}

/// Whether the hit marker is lit at the frame where the detector reads `on`.
pub open spec fn is_lit(s: Indicator, on: bool) -> bool {
    is_rising(s, on) || s.flash > 0
}

/// The state of an instrument after a frame where the detector reads `on`: an onset is
/// counted and relights the marker; the marker then burns one frame.
pub open spec fn indicator_step(s: Indicator, on: bool) -> Indicator {
    let flash = if is_rising(s, on) { FLASH_FRAMES } else { s.flash };
    Indicator {
        flash: if flash > 0 { (flash - 1) as u32 } else { 0 },
        on,
        hits: if is_rising(s, on) { (s.hits + 1) as u64 } else { s.hits },
    }
}

/// The state after the frames `ons`, one after the other.
pub open spec fn indicator_run(s: Indicator, ons: Seq<bool>) -> Indicator
    decreases ons.len(),
{
    if ons.len() == 0 {
        s
    } else {
        indicator_step(indicator_run(s, ons.drop_last()), ons.last())
    }
}

/// The number of onsets among the frames `ons`, starting from state `s`.
pub open spec fn rising_edges(s: Indicator, ons: Seq<bool>) -> nat
    decreases ons.len(),
{
    if ons.len() == 0 {
        0
    } else {
        rising_edges(s, ons.drop_last()) + if is_rising(indicator_run(s, ons.drop_last()), ons.last()) {
            1nat
        } else {
            0nat
        }
    }
}

/// The count of an instrument grows by one at each onset, and by nothing else.
pub proof fn lemma_hits_count_rising_edges(s: Indicator, ons: Seq<bool>)
    requires
        s.hits + ons.len() <= u64::MAX,
    ensures
        indicator_run(s, ons).hits == s.hits + rising_edges(s, ons),
        rising_edges(s, ons) <= ons.len(),
    decreases ons.len(),
{
    if ons.len() > 0 {
        lemma_hits_count_rising_edges(s, ons.drop_last());
    }
}

/// After an onset, the hit marker is lit for exactly `FLASH_FRAMES` frames, the onset's
/// included, when no other onset follows: lit at the `k`-th frame from the onset for
/// `k < FLASH_FRAMES`, and dark from then on.
pub proof fn lemma_marker_lit_for_flash_frames(s: Indicator, ons: Seq<bool>, k: int)
    requires
        0 <= k < ons.len(),
        is_rising(s, ons[0]),
        forall|j: int| 1 <= j < ons.len() ==> !(#[trigger] ons[j] && !ons[j - 1]),
    ensures
        is_lit(indicator_run(s, ons.take(k)), ons[k]) <==> k < FLASH_FRAMES,
{
    lemma_flash_countdown(s, ons, k);
}

proof fn lemma_flash_countdown(s: Indicator, ons: Seq<bool>, k: int)
    requires
        0 <= k < ons.len(),
        is_rising(s, ons[0]),
        forall|j: int| 1 <= j < ons.len() ==> !(#[trigger] ons[j] && !ons[j - 1]),
    ensures
        k >= 1 ==> indicator_run(s, ons.take(k)).on == ons[k - 1],
        k >= 1 ==> indicator_run(s, ons.take(k)).flash == if k < FLASH_FRAMES { FLASH_FRAMES - k } else { 0 },
        !is_rising(indicator_run(s, ons.take(k)), ons[k]) || k == 0,
        is_lit(indicator_run(s, ons.take(k)), ons[k]) <==> k < FLASH_FRAMES,
    decreases k,
{
    if k >= 1 {
        lemma_flash_countdown(s, ons, k - 1);
        assert(ons.take(k).drop_last() =~= ons.take(k - 1));
        assert(ons.take(k).last() == ons[k - 1]);
        if k == 1 {
            assert(ons.take(0) =~= Seq::<bool>::empty());
        }
    } else {
        assert(ons.take(0) =~= Seq::<bool>::empty());
    }
}

/// Whether the detector of instrument `i` reads as over its threshold, `on` holding one
/// reading per instrument: an instrument past the end of `on` reads as off.
pub open spec fn reads_on(on: Seq<bool>, i: int) -> bool {
    i < on.len() && on[i]
}

/// What one frame of the display shows.
#[derive(Debug)]
pub struct DisplayFrame {
    /// Whether to draw over the previous frame's lines (every frame but the first).
    pub redraw_in_place: bool,
    /// Per instrument, whether its hit marker is lit.
    pub lit: Vec<bool>,
}

/// Terminal display state, one indicator per instrument.
pub struct Display {
    indicators: Vec<Indicator>,
    first: bool,
}

impl Display {
    /// The indicators, one per instrument.
    pub closed spec fn spec_indicators(&self) -> Seq<Indicator> {
        self.indicators@
    }

    /// Whether no frame was shown yet.
    pub closed spec fn spec_first(&self) -> bool {
        self.first
    }

    /// A display for `n` instruments, with no onset seen.
    pub fn new(n: usize) -> (r: Self)
        ensures
            r.spec_first(),
            r.spec_indicators() == Seq::new(n as nat, |i: int| Indicator { flash: 0, on: false, hits: 0 }),
    {
        let mut indicators: Vec<Indicator> = Vec::new();
        let mut i: usize = 0;
        while i < n
            invariant
                i <= n,
                indicators@ == Seq::new(i as nat, |j: int| Indicator { flash: 0, on: false, hits: 0 }),
            decreases n - i,
        {
            indicators.push(Indicator { flash: 0, on: false, hits: 0 });
            i = i + 1;
            assert(indicators@ =~= Seq::new(i as nat, |j: int| Indicator { flash: 0, on: false, hits: 0 }));
        }
        Display { indicators, first: true }
    }

    /// The state of instrument `i`.
    pub fn indicator(&self, i: usize) -> (r: Indicator)
        requires
            i < self.spec_indicators().len(),
        ensures
            r == self.spec_indicators()[i as int],
    {
        self.indicators[i]
    }

    /// Advances the display by one frame, where `on[i]` tells whether instrument `i`'s
    /// detector is over its threshold (an instrument past the end of `on` reads as off),
    /// and tells what to show.
    pub fn update(&mut self, on: &[bool]) -> (r: DisplayFrame)
        requires
            forall|i: int| 0 <= i < old(self).spec_indicators().len() ==> #[trigger] old(self).spec_indicators()[i].hits < u64::MAX,
        ensures
            !final(self).spec_first(),
            r.redraw_in_place == !old(self).spec_first(),
            final(self).spec_indicators().len() == old(self).spec_indicators().len(),
            r.lit@.len() == old(self).spec_indicators().len(),
            forall|i: int| 0 <= i < old(self).spec_indicators().len() ==> #[trigger] final(self).spec_indicators()[i]
                == indicator_step(old(self).spec_indicators()[i], reads_on(on@, i)),
            forall|i: int| 0 <= i < old(self).spec_indicators().len() ==> #[trigger] r.lit@[i] == is_lit(
                old(self).spec_indicators()[i],
                reads_on(on@, i),
            ),
    {
        let redraw_in_place = !self.first;
        self.first = false;
        let n = self.indicators.len();
        let mut lit: Vec<bool> = Vec::new();
        let mut i: usize = 0;
        while i < n
            invariant
                i <= n,
                !self.first,
                n == self.indicators@.len(),
                n == old(self).indicators@.len(),
                lit@.len() == i,
                forall|j: int| i <= j < n ==> self.indicators@[j] == old(self).indicators@[j],
                forall|j: int| 0 <= j < n ==> #[trigger] old(self).spec_indicators()[j].hits < u64::MAX,
                forall|j: int| 0 <= j < i ==> #[trigger] self.indicators@[j] == indicator_step(old(self).indicators@[j], reads_on(on@, j)),
                forall|j: int| 0 <= j < i ==> #[trigger] lit@[j] == is_lit(old(self).indicators@[j], reads_on(on@, j)),
            decreases n - i,
        {
            let on_i = i < on.len() && on[i];
            let s = self.indicators[i];
            assert(s == old(self).indicators@[i as int]);
            assert(old(self).spec_indicators()[i as int].hits < u64::MAX);
            let ghost lit_before = lit@;
            let rising = on_i && !s.on;
            let mut flash = s.flash;
            let mut hits = s.hits;
            if rising {
                hits = hits + 1;
                flash = FLASH_FRAMES;
            }
            lit.push(flash > 0);
            assert(lit@[i as int] == is_lit(old(self).indicators@[i as int], on_i));
            if flash > 0 {
                flash = flash - 1;
            }
            let ghost before = self.indicators@;
            self.indicators.set(i, Indicator { flash, on: on_i, hits });
            assert(self.indicators@[i as int] == indicator_step(old(self).indicators@[i as int], on_i));
            assert forall|j: int| 0 <= j < i + 1 implies #[trigger] self.indicators@[j] == indicator_step(old(self).indicators@[j], reads_on(on@, j)) by {
                if j < i {
                    assert(self.indicators@[j] == before[j]);
                }
            }
            assert forall|j: int| 0 <= j < i + 1 implies #[trigger] lit@[j] == is_lit(old(self).indicators@[j], reads_on(on@, j)) by {
                if j < i {
                    assert(lit@[j] == lit_before[j]);
                }
            }
            i = i + 1;
        }
        DisplayFrame { redraw_in_place, lit }
    }
}

/// The name shown for instrument `i`.
pub open spec fn instrument_name(i: nat) -> Seq<char> {
    if i == 0 {
        "Kick"@
    } else if i == 1 {
        "Snare"@
    } else if i == 2 {
        "Rim"@
    } else if i == 3 {
        "HatClosed"@
    } else if i == 4 {
        "HatOpen"@
    } else if i == 5 {
        "Crash"@
    } else if i == 6 {
        "Ride"@
    } else {
        "Tom"@
    }
}

/// The name shown for instrument `i`.
pub fn label(i: usize) -> (r: String)
    requires
        i < INSTRUMENT_COUNT,
    ensures
        r@ == instrument_name(i as nat),
{
    let name: &str = if i == 0 {
        "Kick"
    } else if i == 1 {
        "Snare"
    } else if i == 2 {
        "Rim"
    } else if i == 3 {
        "HatClosed"
    } else if i == 4 {
        "HatOpen"
    } else if i == 5 {
        "Crash"
    } else if i == 6 {
        "Ride"
    } else {
        "Tom"
    };
    name.to_owned()
}

/// Each drum class's label column is shown under the class's own name: the display's
/// instrument order is the label order.
pub proof fn lemma_label_columns_show_class_names()
    ensures
        instrument_name(DrumClass::Kick.spec_index()) == "Kick"@,
        instrument_name(DrumClass::Snare.spec_index()) == "Snare"@,
        instrument_name(DrumClass::Rim.spec_index()) == "Rim"@,
        instrument_name(DrumClass::HatClosed.spec_index()) == "HatClosed"@,
        instrument_name(DrumClass::HatOpen.spec_index()) == "HatOpen"@,
        instrument_name(DrumClass::Crash.spec_index()) == "Crash"@,
        instrument_name(DrumClass::Ride.spec_index()) == "Ride"@,
        instrument_name(DrumClass::Tom.spec_index()) == "Tom"@,
{
}

} // verus!
