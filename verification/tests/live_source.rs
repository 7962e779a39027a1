use band::input_stream::NextSamplesResult;
use band::live_source::{
    capture_setup, device_selection, next_samples_outcome, start_capture_action, CaptureSetup, CaptureSetupError, CaptureStart, DeviceSelection,
    LiveSourceError, LiveSourceFormat, NULL_DEVICE_NAME,
};

#[test]
fn samples_read_are_reported() {
    assert_eq!(next_samples_outcome(12, false), Ok(NextSamplesResult::Samples(12)));
    assert_eq!(next_samples_outcome(12, true), Ok(NextSamplesResult::Samples(12)));
}

#[test]
fn empty_read_is_unavailable_or_death() {
    assert_eq!(next_samples_outcome(0, false), Ok(NextSamplesResult::Unavailable));
    assert_eq!(next_samples_outcome(0, true), Err(LiveSourceError::SourceDied));
}

#[test]
fn source_died_message() {
    assert_eq!(LiveSourceError::SourceDied.message(), "Source died, no more samples available");
}

#[test]
fn capture_start_decisions() {
    assert_eq!(start_capture_action(true, "Mic"), CaptureStart::KeepLive);
    assert_eq!(start_capture_action(true, NULL_DEVICE_NAME), CaptureStart::KeepLive);
    assert_eq!(start_capture_action(false, NULL_DEVICE_NAME), CaptureStart::Blacklist);
    assert_eq!(start_capture_action(false, "Mic"), CaptureStart::Start);
}

#[test]
fn capture_of_a_stereo_device_holds_one_second() {
    assert_eq!(
        capture_setup(2, 48_000, Some(LiveSourceFormat::F32)),
        Ok(CaptureSetup { channels: 2, format: LiveSourceFormat::F32, buffer_capacity: 48_000 })
    );
}

#[test]
fn capture_buffer_holds_at_least_one_sample() {
    assert_eq!(capture_setup(1, 0, Some(LiveSourceFormat::F32)).map(|s| s.buffer_capacity), Ok(1));
}

#[test]
fn capture_refuses_frames_of_no_channel_before_the_format() {
    assert_eq!(capture_setup(0, 44_100, None), Err(CaptureSetupError::InvalidChannelCount { channel_count: 0 }));
    assert_eq!(
        capture_setup(0, 44_100, Some(LiveSourceFormat::F32)),
        Err(CaptureSetupError::InvalidChannelCount { channel_count: 0 })
    );
}

#[test]
fn capture_refuses_unsupported_formats() {
    assert_eq!(capture_setup(2, 44_100, None), Err(CaptureSetupError::UnsupportedFormat));
}

#[test]
fn prompt_selects_a_listed_device() {
    assert_eq!(device_selection(Some(0), 3), DeviceSelection::Device(0));
    assert_eq!(device_selection(Some(2), 3), DeviceSelection::Device(2));
}

#[test]
fn prompt_asks_again_past_the_list_or_without_a_number() {
    assert_eq!(device_selection(Some(3), 3), DeviceSelection::InvalidNumber);
    assert_eq!(device_selection(None, 3), DeviceSelection::NotANumber);
    assert_eq!(device_selection("two".trim().parse::<usize>().ok(), 3), DeviceSelection::NotANumber);
    assert_eq!(device_selection(" 1\n".trim().parse::<usize>().ok(), 3), DeviceSelection::Device(1));
}
