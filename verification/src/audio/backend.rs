//! What the console and an audio backend say to each other.

use vstd::prelude::*;

verus! {

/// How a stream runs.
#[derive(Debug, Clone, Copy, PartialEq, Eq, Structural)]
pub struct StreamConfig {
    pub sample_rate: u32,
    pub block_size: usize,
}

/// Why a device or a stream could not be had.
#[derive(Debug)]
pub enum AudioError {
    Device(String),
    Stream(String),
}

impl AudioError {
    /// What the error says.
    pub open spec fn words(&self) -> Seq<char> {
        match *self {
            AudioError::Device(why) => "no usable device: "@ + why@,
            AudioError::Stream(why) => "stream failed: "@ + why@,
        }
    }

    /// The error in words.
    pub fn to_string(&self) -> (text: String)
        ensures
            text@ == self.words(),
    {
        match self {
            AudioError::Device(why) => {
                let mut text: String = "no usable device: ".to_owned();
                text.append(why.as_str());
                text
            },
            AudioError::Stream(why) => {
                let mut text: String = "stream failed: ".to_owned();
                text.append(why.as_str());
                text
            },
        }
    }
}

/// A request to feed one device into the engine's input frame.
#[derive(Debug)]
pub struct OpenInput {
    /// `None` is the system default input.
    pub device: Option<String>,
    pub channels: u16,
    /// Where the device's channels land in the frame.
    pub offset: u16,
    /// Open the device through the Pulse capture path.
    pub pulse: bool,
    /// The source's own channel map, when known.
    pub channel_map: Option<String>,
}

/// A look at one open input stream.
#[derive(Debug)]
pub struct InputStreamStatus {
    pub device: Option<String>,
    pub offset: u16,
    pub channels: u16,
    /// The stream has failed since it was opened.
    pub failed: bool,
    /// Samples that the ring did not hold when they were wanted.
    pub underruns: u64,
    /// Whole frames that the ring had no room for.
    pub overruns: u64,
}

/// A request to drain part of the engine's output plane to one device.
#[derive(Debug)]
pub struct OpenOutput {
    /// `None` is the system default output.
    pub device: Option<String>,
    pub channels: u16,
    /// Where the device's channels come from in the plane.
    pub offset: u16,
    /// Open the device through the Pulse sink path.
    pub pulse: bool,
    /// The sink's own channel map, when known.
    pub channel_map: Option<String>,
}

/// A look at one open output stream.
#[derive(Debug)]
pub struct OutputStreamStatus {
    pub device: Option<String>,
    pub offset: u16,
    pub channels: u16,
    /// The stream has failed since it was opened.
    pub failed: bool,
    /// Samples that the device wanted and the engine had not produced.
    pub underruns: u64,
    /// Whole frames that the ring had no room for.
    pub overruns: u64,
    /// Xruns that this stream recovered from.
    pub xruns: u64,
    /// The longest block of this second, in microseconds.
    pub worst_block_us: u32,
}

/// How a thread is scheduled.
#[derive(Debug, Clone, Copy, PartialEq, Eq, Structural)]
pub enum Scheduling {
    /// Real-time, first in, first out.
    Fifo,
    /// Ordinary time-sharing.
    Other,
    /// There is no audio thread to schedule.
    NotApplicable,
}

/// What the machine granted the audio thread.
#[derive(Debug)]
pub struct RealtimeStatus {
    pub scheduling: Scheduling,
    pub priority: Option<u32>,
    pub memory_locked: bool,
    /// Why it is not better than this.
    pub reason: Option<String>,
}

/// What a real-time status says.
#[verifier::ext_equal]
pub ghost struct RealtimeView {
    pub scheduling: Scheduling,
    pub priority: Option<u32>,
    pub memory_locked: bool,
    pub reason: Option<Seq<char>>,
}

impl View for RealtimeStatus {
    type V = RealtimeView;

    open spec fn view(&self) -> RealtimeView {
        RealtimeView {
            scheduling: self.scheduling,
            priority: self.priority,
            memory_locked: self.memory_locked,
            reason: crate::text::text_of(self.reason),
        }
    }
}

impl RealtimeStatus {
    /// The status of a backend without an audio thread.
    pub fn not_applicable() -> (status: RealtimeStatus)
        ensures
            status@ == (RealtimeView {
                scheduling: Scheduling::NotApplicable,
                priority: None,
                memory_locked: false,
                reason: None,
            }),
    {
        RealtimeStatus {
            scheduling: Scheduling::NotApplicable,
            priority: None,
            memory_locked: false,
            reason: None,
        }
    }
}

/// How a backend is doing.
#[derive(Debug)]
pub struct BackendStatus {
    /// A card is open.
    pub running: bool,
    pub card: Option<String>,
    pub error: Option<String>,
    pub realtime: RealtimeStatus,
}

/// A running audio stream, as the control side sees it.
pub trait StreamHandle {
    fn open_input(&self, req: OpenInput) -> Result<(), AudioError>;

    fn close_input(&self, device: Option<&str>) -> Result<(), AudioError>;

    fn input_status(&self) -> Vec<InputStreamStatus>;

    /// Starts to drain part of the plane to a device. A stream that only
    /// captures refuses.
    fn open_output(&self, req: OpenOutput) -> (opened: Result<(), AudioError>)
        default_ensures
            opened matches Err(AudioError::Device(why)) && why@
                == "this audio backend has no patchable outputs"@,
    {
        Err(AudioError::Device("this audio backend has no patchable outputs".to_owned()))
    }

    /// Closing what is not open is not an error.
    fn close_output(&self, device: Option<&str>) -> (closed: Result<(), AudioError>)
        default_ensures
            closed is Ok,
    {
        Ok(())
    }

    fn output_status(&self) -> (list: Vec<OutputStreamStatus>)
        default_ensures
            list@.len() == 0,
    {
        Vec::new()
    }
}

/// One input device.
#[derive(Debug, PartialEq, Eq)]
pub struct InputDeviceInfo {
    /// What patches store and opens use.
    pub name: String,
    /// What the system sound menu shows, when that is known.
    pub description: Option<String>,
    pub channels: u16,
    /// The system default.
    pub active: bool,
    /// Open this through the Pulse capture path.
    pub pulse: bool,
    pub card: Option<String>,
    pub channel_map: Option<String>,
    pub muted: bool,
    /// The quietest channel's volume in percent, when that is known.
    pub volume_percent: Option<u32>,
}

/// One output device.
#[derive(Debug, PartialEq, Eq)]
pub struct OutputDeviceInfo {
    /// What patches store and opens use.
    pub name: String,
    /// What the system sound menu shows, when that is known.
    pub description: Option<String>,
    pub channels: u16,
    /// The system default.
    pub active: bool,
    pub pulse: bool,
    pub card: Option<String>,
    pub channel_map: Option<String>,
    pub muted: bool,
    pub volume_percent: Option<u32>,
    /// Channels that the monitor pair takes of this device.
    pub monitor_channels: u16,
}

/// A sound card and the profiles it can be switched between.
#[derive(Debug, PartialEq, Eq)]
pub struct CardInfo {
    pub name: String,
    pub active_profile: String,
    pub profiles: Vec<CardProfile>,
}

#[derive(Debug, PartialEq, Eq)]
pub struct CardProfile {
    pub name: String,
    pub description: String,
}

} // verus!
