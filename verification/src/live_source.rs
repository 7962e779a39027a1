//! The decisions of a live audio source: what a read from its capture buffer answers,
//! and whether an available source starts capturing.
//!
//! The capture itself (the audio device, its callback that downmixes frames into a ring
//! buffer, and the flags it shares) is left to the caller, which hands over what it saw.
use vstd::prelude::*;
use crate::input_stream::NextSamplesResult;

verus! {

/// All currently supported formats.
#[derive(Debug, Clone, Copy, PartialEq, Eq, Structural)]
pub enum LiveSourceFormat {
    F32,
}

/// How the capture of a device is set up: the number of channels of each frame it
/// delivers (downmixed to one sample), the sample format, and the capacity of the
/// capture buffer in samples (one second of audio).
#[derive(Debug, Clone, Copy, PartialEq, Eq, Structural)]
pub struct CaptureSetup {
    pub channels: usize,
    pub format: LiveSourceFormat,
    pub buffer_capacity: usize,
}

/// Why a device cannot be captured.
#[derive(Debug, Clone, Copy, PartialEq, Eq, Structural)]
pub enum CaptureSetupError {
    /// The device delivers frames of no channel.
    InvalidChannelCount { channel_count: u16 },
    /// The device delivers samples in a format this library does not take.
    UnsupportedFormat,
}

/// How to capture a device whose default input configuration has `channel_count`
/// channels at `sample_rate`, delivering samples in `format` (`None` for a format this
/// library does not take): frames of no channel are refused first, then an unsupported
/// format; the capture buffer holds one second of audio, and at least one sample.
pub fn capture_setup(
    channel_count: u16,
    sample_rate: usize,
    format: Option<LiveSourceFormat>,
) -> (r: Result<CaptureSetup, CaptureSetupError>)
    ensures
        channel_count == 0 ==> r == Err::<CaptureSetup, CaptureSetupError>(
            CaptureSetupError::InvalidChannelCount { channel_count: 0 },
        ),
        channel_count > 0 && format is None ==> r == Err::<CaptureSetup, CaptureSetupError>(
            CaptureSetupError::UnsupportedFormat,
        ),
        channel_count > 0 && format is Some ==> r == Ok::<CaptureSetup, CaptureSetupError>(
            CaptureSetup {
                channels: channel_count as usize,
                format: format->0,
                buffer_capacity: if sample_rate > 0 { sample_rate } else { 1 },
            },
        ),
{
    if channel_count == 0 {
        return Err(CaptureSetupError::InvalidChannelCount { channel_count: 0 });
    }
    let format = match format {
        Some(format) => format,
        None => return Err(CaptureSetupError::UnsupportedFormat),
    };
    let buffer_capacity = if sample_rate > 0 { sample_rate } else { 1 };
    Ok(CaptureSetup { channels: channel_count as usize, format, buffer_capacity })
}

/// What a line typed at the capture-device prompt selects.
#[derive(Debug, Clone, Copy, PartialEq, Eq, Structural)]
pub enum DeviceSelection {
    /// The device at this index of the list shown.
    Device(usize),
    /// A number past the end of the list: ask again.
    InvalidNumber,
    /// Not a number: ask again.
    NotANumber,
}

/// What the prompt selects among `device_count` devices, `number` being the typed line,
/// trimmed, read as a number (`None` when it is not one): a device whose index is in the
/// list, otherwise a reason to ask again.
pub fn device_selection(number: Option<usize>, device_count: usize) -> (r: DeviceSelection)
    ensures
        r == match number {
            None => DeviceSelection::NotANumber,
            Some(i) => if i < device_count {
                DeviceSelection::Device(i)
            } else {
                DeviceSelection::InvalidNumber
            },
        },
{
    match number {
        Some(index) => {
            if index < device_count {
                DeviceSelection::Device(index)
            } else {
                DeviceSelection::InvalidNumber
            }
        },
        None => DeviceSelection::NotANumber,
    }
}

/// Errors when reading from a live source.
#[derive(Debug, Clone, Copy, PartialEq, Eq, Structural)]
pub enum LiveSourceError {
    /// The device reported an error and no samples are left to read.
    SourceDied,
}

impl LiveSourceError {
    /// The message of the error.
    pub fn message(&self) -> (r: String)
        ensures
            r@ == "Source died, no more samples available"@,
    {
        match self {
            LiveSourceError::SourceDied => "Source died, no more samples available".to_owned(),
        }
    }
}

/// What a read from a live source answers, once `written` samples were taken from its
/// capture buffer and the device's error flag read `source_errored`: the samples when
/// there were any; otherwise the error if the device failed, or that none are available
/// yet.
pub fn next_samples_outcome(written: usize, source_errored: bool) -> (r: Result<NextSamplesResult, LiveSourceError>)
    ensures
        written > 0 ==> r == Ok::<NextSamplesResult, LiveSourceError>(NextSamplesResult::Samples(written)),
        written == 0 && source_errored ==> r == Err::<NextSamplesResult, LiveSourceError>(LiveSourceError::SourceDied),
        written == 0 && !source_errored ==> r == Ok::<NextSamplesResult, LiveSourceError>(NextSamplesResult::Unavailable),
{
    if written > 0 {
        Ok(NextSamplesResult::Samples(written))
    } else if source_errored {
        Err(LiveSourceError::SourceDied)
    } else {
        Ok(NextSamplesResult::Unavailable)
    }
}

/// The name of the null device, which produces a flood of zero samples and overruns
/// any capture buffer.
pub const NULL_DEVICE_NAME: &'static str = "Discard all samples (playback) or generate zero samples (capture)";

/// What starting the capture of an available source does.
#[derive(Debug, Clone, Copy, PartialEq, Eq, Structural)]
pub enum CaptureStart {
    /// The source is already captured: nothing changes.
    KeepLive,
    /// The source is the null device: it is marked blacklisted instead.
    Blacklist,
    /// The capture is started.
    Start,
}

/// What starting the capture of the source named `name` does, `already_live` telling
/// whether it is being captured: a live capture is never restarted, the null device is
/// never captured, and any other source starts.
pub fn start_capture_action(already_live: bool, name: &str) -> (r: CaptureStart)
    ensures
        already_live ==> r == CaptureStart::KeepLive,
        !already_live && name@ == NULL_DEVICE_NAME@ ==> r == CaptureStart::Blacklist,
        !already_live && name@ != NULL_DEVICE_NAME@ ==> r == CaptureStart::Start,
{
    if already_live {
        return CaptureStart::KeepLive;
    }
    let name: String = name.to_owned();
    let null_device: String = NULL_DEVICE_NAME.to_owned();
    if name == null_device {
        CaptureStart::Blacklist
    } else {
        CaptureStart::Start
    }
}

} // verus!
