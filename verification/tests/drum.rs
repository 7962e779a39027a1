use band::drum::DrumClass;

#[test]
fn general_midi_keys_map_to_classes() {
    assert_eq!(DrumClass::from_midi(35), Some(DrumClass::Kick));
    assert_eq!(DrumClass::from_midi(36), Some(DrumClass::Kick));
    assert_eq!(DrumClass::from_midi(38), Some(DrumClass::Snare));
    assert_eq!(DrumClass::from_midi(37), Some(DrumClass::Rim));
    assert_eq!(DrumClass::from_midi(42), Some(DrumClass::HatClosed));
    assert_eq!(DrumClass::from_midi(46), Some(DrumClass::HatOpen));
    assert_eq!(DrumClass::from_midi(49), Some(DrumClass::Crash));
    assert_eq!(DrumClass::from_midi(51), Some(DrumClass::Ride));
    assert_eq!(DrumClass::from_midi(45), Some(DrumClass::Tom));
}

#[test]
fn unlearned_keys_map_to_nothing() {
    assert_eq!(DrumClass::from_midi(0), None);
    assert_eq!(DrumClass::from_midi(54), None);
    assert_eq!(DrumClass::from_midi(127), None);
}

#[test]
fn class_indices_follow_label_order() {
    assert_eq!(DrumClass::Kick.index(), 0);
    assert_eq!(DrumClass::Tom.index(), 7);
    assert_eq!(DrumClass::Crash.index(), 5);
}
