//! Drum classes of the General MIDI percussion map.
use vstd::prelude::*;

verus! {

/// The instrument classes the model predicts.
#[derive(Debug, Clone, Copy, PartialEq, Eq, Structural)]
pub enum DrumClass {
    Kick,
    Snare,
    Rim,
    HatClosed,
    HatOpen,
    Crash,
    Ride,
    Tom,
}

/// The class a General MIDI percussion key maps to, if any.
pub open spec fn spec_class_of_key(pitch: u8) -> Option<DrumClass> {
    if pitch == 35 || pitch == 36 {
        Some(DrumClass::Kick)
    } else if pitch == 38 || pitch == 40 {
        Some(DrumClass::Snare)
    } else if pitch == 37 || pitch == 39 {
        Some(DrumClass::Rim)
    } else if pitch == 42 || pitch == 44 {
        Some(DrumClass::HatClosed)
    } else if pitch == 46 {
        Some(DrumClass::HatOpen)
    } else if pitch == 49 || pitch == 52 || pitch == 55 || pitch == 57 {
        Some(DrumClass::Crash)
    } else if pitch == 51 || pitch == 53 || pitch == 59 {
        Some(DrumClass::Ride)
    } else if pitch == 41 || pitch == 43 || pitch == 45 || pitch == 47 || pitch == 48 || pitch == 50 {
        Some(DrumClass::Tom)
    } else {
        None
    }
}

impl DrumClass {
    /// Number of classes.
    pub const COUNT: usize = 8;

    /// Position of the class in the label rows (`Kick` is 0, `Tom` is 7).
    pub open spec fn spec_index(self) -> nat {
        match self {
            DrumClass::Kick => 0,
            DrumClass::Snare => 1,
            DrumClass::Rim => 2,
            DrumClass::HatClosed => 3,
            DrumClass::HatOpen => 4,
            DrumClass::Crash => 5,
            DrumClass::Ride => 6,
            DrumClass::Tom => 7,
        }
    }

    /// Position of the class in the label rows: the label columns follow the order
    /// Kick, Snare, Rim, HatClosed, HatOpen, Crash, Ride, Tom.
    pub fn index(self) -> (r: usize)
        ensures
            r == self.spec_index(),
            r < Self::COUNT,
            self == DrumClass::Kick ==> r == 0,
            self == DrumClass::Snare ==> r == 1,
            self == DrumClass::Rim ==> r == 2,
            self == DrumClass::HatClosed ==> r == 3,
            self == DrumClass::HatOpen ==> r == 4,
            self == DrumClass::Crash ==> r == 5,
            self == DrumClass::Ride ==> r == 6,
            self == DrumClass::Tom ==> r == 7,
    {
        match self {
            DrumClass::Kick => 0,
            DrumClass::Snare => 1,
            DrumClass::Rim => 2,
            DrumClass::HatClosed => 3,
            DrumClass::HatOpen => 4,
            DrumClass::Crash => 5,
            DrumClass::Ride => 6,
            DrumClass::Tom => 7,
        }
    }

    /// Maps a General MIDI percussion key to its drum class, or `None` for keys
    /// that the model does not learn.
    pub fn from_midi(pitch: u8) -> (r: Option<Self>)
        ensures
            r == spec_class_of_key(pitch),
            pitch == 35 || pitch == 36 ==> r == Some(DrumClass::Kick),
            pitch == 38 || pitch == 40 ==> r == Some(DrumClass::Snare),
            pitch == 37 || pitch == 39 ==> r == Some(DrumClass::Rim),
            pitch == 42 || pitch == 44 ==> r == Some(DrumClass::HatClosed),
            pitch == 46 ==> r == Some(DrumClass::HatOpen),
            pitch == 49 || pitch == 52 || pitch == 55 || pitch == 57 ==> r == Some(DrumClass::Crash),
            pitch == 51 || pitch == 53 || pitch == 59 ==> r == Some(DrumClass::Ride),
            pitch == 41 || pitch == 43 || pitch == 45 || pitch == 47 || pitch == 48 || pitch == 50 ==> r == Some(
                DrumClass::Tom,
            ),
            !(35 <= pitch <= 53 || pitch == 55 || pitch == 57 || pitch == 59) ==> r is None,
            pitch == 54 || pitch == 56 || pitch == 58 ==> r is None,
    {
        match pitch {
            35 | 36 => Some(Self::Kick),
            38 | 40 => Some(Self::Snare),
            37 | 39 => Some(Self::Rim),
            42 | 44 => Some(Self::HatClosed),
            46 => Some(Self::HatOpen),
            49 | 52 | 55 | 57 => Some(Self::Crash),
            51 | 53 | 59 => Some(Self::Ride),
            41 | 43 | 45 | 47 | 48 | 50 => Some(Self::Tom),
            _ => None,
        }
    }
}

/// The General MIDI percussion map, key by key: bass drums (35, 36) are kicks; acoustic
/// and electric snares (38, 40) snares; side stick and hand clap (37, 39) rims; closed
/// and pedal hi-hats (42, 44) closed hats; the open hi-hat (46) the open hat; crash
/// cymbals 1 and 2, the Chinese and the splash cymbal (49, 57, 52, 55) crashes; ride
/// cymbals 1 and 2 and the ride bell (51, 59, 53) rides; the six toms (41, 43, 45, 47,
/// 48, 50) toms; every other key (the tambourine 54, the cowbell 56, the vibraslap 58,
/// and all keys below 35 or above 59) no class.
pub proof fn lemma_general_midi_percussion_map(pitch: u8)
    ensures
        pitch == 35 || pitch == 36 <==> spec_class_of_key(pitch) == Some(DrumClass::Kick),
        pitch == 38 || pitch == 40 <==> spec_class_of_key(pitch) == Some(DrumClass::Snare),
        pitch == 37 || pitch == 39 <==> spec_class_of_key(pitch) == Some(DrumClass::Rim),
        pitch == 42 || pitch == 44 <==> spec_class_of_key(pitch) == Some(DrumClass::HatClosed),
        pitch == 46 <==> spec_class_of_key(pitch) == Some(DrumClass::HatOpen),
        pitch == 49 || pitch == 52 || pitch == 55 || pitch == 57 <==> spec_class_of_key(pitch) == Some(
            DrumClass::Crash,
        ),
        pitch == 51 || pitch == 53 || pitch == 59 <==> spec_class_of_key(pitch) == Some(DrumClass::Ride),
        pitch == 41 || pitch == 43 || pitch == 45 || pitch == 47 || pitch == 48 || pitch == 50 <==> spec_class_of_key(
            pitch,
        ) == Some(DrumClass::Tom),
        pitch < 35 || pitch > 59 || pitch == 54 || pitch == 56 || pitch == 58 <==> spec_class_of_key(pitch) is None,
{
}

/// The label columns of the classes follow the order Kick, Snare, Rim, HatClosed,
/// HatOpen, Crash, Ride, Tom: each class's column is a distinct position below
/// `COUNT`, in that order.
pub proof fn lemma_label_columns()
    ensures
        DrumClass::Kick.spec_index() == 0,
        DrumClass::Snare.spec_index() == 1,
        DrumClass::Rim.spec_index() == 2,
        DrumClass::HatClosed.spec_index() == 3,
        DrumClass::HatOpen.spec_index() == 4,
        DrumClass::Crash.spec_index() == 5,
        DrumClass::Ride.spec_index() == 6,
        DrumClass::Tom.spec_index() == 7,
        forall|c: DrumClass, d: DrumClass| c.spec_index() == d.spec_index() ==> c == d,
        forall|c: DrumClass| #[trigger] c.spec_index() < DrumClass::COUNT,
{
}

} // verus!
