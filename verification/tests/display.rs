use band::display::{label, Display, FLASH_FRAMES};

#[test]
fn new_display_has_no_hits() {
    let d = Display::new(8);
    for i in 0..8 {
        let s = d.indicator(i);
        assert_eq!((s.flash, s.on, s.hits), (0, false, 0));
    }
}

#[test]
fn rising_edge_counts_one_hit_and_lights_marker() {
    let mut d = Display::new(2);
    let first = d.update(&[true, false]);
    assert!(!first.redraw_in_place);
    assert_eq!(first.lit, vec![true, false]);
    assert_eq!(d.indicator(0).hits, 1);
    /* held over the threshold: no new hit */
    let second = d.update(&[true, false]);
    assert!(second.redraw_in_place);
    assert_eq!(d.indicator(0).hits, 1);
    assert!(second.lit[0]);
}

#[test]
fn marker_stays_lit_for_flash_frames() {
    let mut d = Display::new(1);
    let mut lit = Vec::new();
    lit.push(d.update(&[true]).lit[0]);
    for _ in 0..10 {
        lit.push(d.update(&[false]).lit[0]);
    }
    let lit_frames = lit.iter().take_while(|&&l| l).count();
    assert_eq!(lit_frames, FLASH_FRAMES as usize);
    assert!(lit.iter().skip(lit_frames).all(|&l| !l));
}

#[test]
fn each_rising_edge_is_one_hit() {
    let mut d = Display::new(1);
    for on in [true, false, true, true, false, false, true] {
        d.update(&[on]);
    }
    assert_eq!(d.indicator(0).hits, 3);
}

#[test]
fn missing_readings_count_as_off() {
    let mut d = Display::new(3);
    let frame = d.update(&[true]);
    assert_eq!(frame.lit, vec![true, false, false]);
    assert_eq!(d.indicator(2).hits, 0);
}

#[test]
fn instrument_labels() {
    let names: Vec<String> = (0..8).map(label).collect();
    assert_eq!(names, ["Kick", "Snare", "Rim", "HatClosed", "HatOpen", "Crash", "Ride", "Tom"]);
}
