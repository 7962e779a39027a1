use band::frame_buffer::{FrameBuffer, FrameWindowResult};
use band::frame_extractor::NextFrameResult;

#[test]
fn window_slides_by_one_frame() {
    let mut fb = FrameBuffer::<u32, 3>::new(0);
    let mut last = Vec::new();
    for frame in 1..=5u32 {
        match fb.next_window(NextFrameResult::Frame(frame)) {
            FrameWindowResult::Window(w) => last = w.to_vec(),
            _ => panic!("a frame must give a window"),
        }
        if frame == 1 {
            assert_eq!(last, vec![0, 0, 1]);
        }
    }
    assert_eq!(last, vec![3, 4, 5]);
}

#[test]
fn unavailable_and_end_are_propagated() {
    let mut fb = FrameBuffer::<u32, 2>::new(7);
    assert!(matches!(fb.next_window(NextFrameResult::Unavailable), FrameWindowResult::Unavailable));
    assert!(matches!(fb.next_window(NextFrameResult::EndOfInput), FrameWindowResult::EndOfInput));
    match fb.next_window(NextFrameResult::Frame(9)) {
        FrameWindowResult::Window(w) => assert_eq!(w, &[7, 9]),
        _ => panic!("a frame must give a window"),
    }
}

#[test]
fn buffer_is_full_once_a_window_of_frames_was_received() {
    let mut fb = FrameBuffer::<u32, 3>::new(0);
    assert!(!fb.is_full());
    for frame in 1..=7u32 {
        let window = match fb.next_window(NextFrameResult::Frame(frame)) {
            FrameWindowResult::Window(w) => w.to_vec(),
            _ => panic!("a frame must give a window"),
        };
        let full = fb.is_full();
        assert_eq!(full, frame >= 3);
        if full {
            assert_eq!(window, vec![frame - 2, frame - 1, frame]);
        }
        /* results that bring no frame do not count */
        assert!(matches!(fb.next_window(NextFrameResult::Unavailable), FrameWindowResult::Unavailable));
        assert_eq!(fb.is_full(), full);
    }
}
