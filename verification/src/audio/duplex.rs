//! One card, owned outright: what is open, who may use it, where its channels
//! sit in the engine's frames, and what to do when it fails.

use vstd::prelude::*;

use crate::audio::assembler::hushed;
use crate::audio::backend::AudioError;
use crate::audio::backend::BackendStatus;
use crate::audio::backend::InputDeviceInfo;
use crate::audio::backend::InputStreamStatus;
use crate::audio::backend::OpenInput;
use crate::audio::backend::OpenOutput;
use crate::audio::backend::OutputDeviceInfo;
use crate::audio::backend::OutputStreamStatus;
use crate::audio::backend::RealtimeStatus;
use crate::audio::backend::RealtimeView;
use crate::audio::backend::Scheduling;
use crate::engine::slots::MAX_INPUT_CHANNELS;
use crate::engine::slots::MAX_OUTPUT_CHANNELS;
use crate::engine::slots::MONITOR_CHANNELS;
use crate::single::Single;
use crate::text::copy_optional_text;
use crate::text::numeral;
use crate::text::push_numeral;
use crate::text::same_text;
use crate::text::text_of;

verus! {

/// Periods in the card's ring.
pub const PERIODS: u32 = 3;

/// How long a dead card waits before it is tried again, in nanoseconds.
pub const REOPEN_AFTER: u64 = 5_000_000_000;

/// The sample format negotiated with the card.
#[derive(Debug, Clone, Copy, PartialEq, Eq, Structural)]
pub enum SampleFormat {
    S32,
    S16,
}

/// The format to try after another, the widest first.
pub fn next_format(refused: Option<SampleFormat>) -> (format: Option<SampleFormat>)
    ensures
        format == match refused {
            None => Some(SampleFormat::S32),
            Some(SampleFormat::S32) => Some(SampleFormat::S16),
            Some(SampleFormat::S16) => None,
        },
{
    match refused {
        None => Some(SampleFormat::S32),
        Some(SampleFormat::S32) => Some(SampleFormat::S16),
        Some(SampleFormat::S16) => None,
    }
}

/// A card that is open.
#[derive(Debug, PartialEq, Eq)]
pub struct OpenedCard {
    pub name: String,
    pub in_channels: u16,
    pub out_channels: u16,
}

/// What an open card is.
#[verifier::ext_equal]
pub ghost struct CardView {
    pub name: Seq<char>,
    pub in_channels: u16,
    pub out_channels: u16,
}

impl View for OpenedCard {
    type V = CardView;

    open spec fn view(&self) -> CardView {
        CardView {
            name: self.name@,
            in_channels: self.in_channels,
            out_channels: self.out_channels,
        }
    }
}

impl Clone for OpenedCard {
    fn clone(&self) -> (copy: OpenedCard)
        ensures
            copy@ == self@,
    {
        OpenedCard {
            name: self.name.clone(),
            in_channels: self.in_channels,
            out_channels: self.out_channels,
        }
    }
}

/// The card's state as one value: coming up clears the error, going down
/// clears the card.
#[derive(Debug, PartialEq, Eq)]
pub struct CardHealth {
    pub opened: Option<OpenedCard>,
    pub last_error: Option<String>,
    /// Moves on every transition.
    pub generation: u64,
}

/// What a card's state says.
#[verifier::ext_equal]
pub ghost struct HealthView {
    pub opened: Option<CardView>,
    pub last_error: Option<Seq<char>>,
    pub generation: u64,
}

impl View for CardHealth {
    type V = HealthView;

    open spec fn view(&self) -> HealthView {
        HealthView {
            opened: match self.opened {
                Some(card) => Some(card@),
                None => None,
            },
            last_error: text_of(self.last_error),
            generation: self.generation,
        }
    }
}

impl Default for CardHealth {
    fn default() -> (health: CardHealth)
        ensures
            health@ == (HealthView { opened: None, last_error: None, generation: 0 }),
    {
        CardHealth { opened: None, last_error: None, generation: 0 }
    }
}

impl CardHealth {
    /// Never a card and an error at once.
    pub open spec fn wf(&self) -> bool {
        self@.opened is None || self@.last_error is None
    }

    /// The card came up.
    pub fn came_up(&mut self, card: OpenedCard)
        requires
            old(self)@.generation < u64::MAX,
        ensures
            final(self).wf(),
            final(self)@ == (HealthView {
                opened: Some(card@),
                last_error: None,
                generation: (old(self)@.generation + 1) as u64,
            }),
    {
        self.opened = Some(card);
        self.last_error = None;
        self.generation = self.generation + 1;
    }

    /// The card went down.
    pub fn went_down(&mut self, why: String)
        requires
            old(self)@.generation < u64::MAX,
        ensures
            final(self).wf(),
            final(self)@ == (HealthView {
                opened: None,
                last_error: Some(why@),
                generation: (old(self)@.generation + 1) as u64,
            }),
    {
        self.opened = None;
        self.last_error = Some(why);
        self.generation = self.generation + 1;
    }
}

/// Where the one card sits in the engine's frames.
#[derive(Debug, Clone, Copy, PartialEq, Eq, Structural)]
pub struct Routing {
    pub input_offset: u16,
    pub input_open: bool,
    pub output_offset: u16,
    pub output_open: bool,
}

impl Default for Routing {
    fn default() -> (routing: Routing)
        ensures
            routing == (Routing {
                input_offset: 0,
                input_open: false,
                output_offset: 0,
                output_open: false,
            }),
    {
        Routing { input_offset: 0, input_open: false, output_offset: 0, output_open: false }
    }
}

/// What a second interface is told.
pub open spec fn second_card_words(card: Seq<char>) -> Seq<char> {
    "the real-time backend owns "@ + card
        + " alone \u{2014} a second interface runs on its own clock, and two clocks is the drift this backend exists to remove"@
}

/// The refusal that a second interface gets.
pub fn second_card_error(card: &str) -> (error: AudioError)
    ensures
        error matches AudioError::Device(why) && why@ == second_card_words(card@),
{
    let mut why: String = "the real-time backend owns ".to_owned();
    why.append(card);
    why.append(
        " alone \u{2014} a second interface runs on its own clock, and two clocks is the drift this backend exists to remove",
    );
    AudioError::Device(why)
}

/// Whether a request may use the card: it names no device, or this one.
pub open spec fn admitted(health: HealthView, device: Option<Seq<char>>) -> bool {
    health.opened matches Some(card) && (device matches Some(name) ==> name == card.name)
}

/// Why a request may not use the card.
pub open spec fn refusal_of(health: HealthView) -> Seq<char> {
    match health.opened {
        None => "the card is not open"@,
        Some(card) => second_card_words(card.name),
    }
}

fn check_card(health: &CardHealth, device: &Option<String>) -> (checked: Result<(), AudioError>)
    ensures
        checked is Ok <==> admitted(health@, text_of(*device)),
        checked matches Err(error) ==> (error matches AudioError::Device(why) && why@
            == refusal_of(health@)),
{
    match &health.opened {
        None => Err(AudioError::Device("the card is not open".to_owned())),
        Some(card) => {
            if let Some(name) = device {
                if !same_text(name.as_str(), card.name.as_str()) {
                    return Err(second_card_error(card.name.as_str()));
                }
            }
            Ok(())
        },
    }
}

impl Routing {
    /// Feeds the card's capture into the input frame.
    pub fn open_input(&mut self, health: &CardHealth, req: &OpenInput) -> (opened: Result<
        (),
        AudioError,
    >)
        ensures
            opened is Ok <==> admitted(health@, text_of(req.device)),
            opened matches Err(error) ==> (error matches AudioError::Device(why) && why@
                == refusal_of(health@)),
            *final(self) == if opened is Ok {
                Routing { input_offset: req.offset, input_open: true, ..*old(self) }
            } else {
                *old(self)
            },
    {
        match check_card(health, &req.device) {
            Ok(()) => {
                self.input_offset = req.offset;
                self.input_open = true;
                Ok(())
            },
            Err(error) => Err(error),
        }
    }

    /// Stops feeding the card's capture into the input frame.
    pub fn close_input(&mut self)
        ensures
            *final(self) == (Routing { input_open: false, ..*old(self) }),
    {
        self.input_open = false;
    }

    /// Drains part of the plane to the card.
    pub fn open_output(&mut self, health: &CardHealth, req: &OpenOutput) -> (opened: Result<
        (),
        AudioError,
    >)
        ensures
            opened is Ok <==> admitted(health@, text_of(req.device)),
            opened matches Err(error) ==> (error matches AudioError::Device(why) && why@
                == refusal_of(health@)),
            *final(self) == if opened is Ok {
                Routing { output_offset: req.offset, output_open: true, ..*old(self) }
            } else {
                *old(self)
            },
    {
        match check_card(health, &req.device) {
            Ok(()) => {
                self.output_offset = req.offset;
                self.output_open = true;
                Ok(())
            },
            Err(error) => Err(error),
        }
    }

    /// Stops draining the plane to the card.
    pub fn close_output(&mut self)
        ensures
            *final(self) == (Routing { output_open: false, ..*old(self) }),
    {
        self.output_open = false;
    }

    /// A look at the card's input stream, if it is open.
    pub fn input_status(&self, health: &CardHealth, failed: bool, underruns: u64) -> (status: Option<
        InputStreamStatus,
    >)
        ensures
            match status {
                Some(status) => {
                    &&& self.input_open
                    &&& health@.opened is Some
                    &&& text_of(status.device) == Some(health@.opened->0.name)
                    &&& status.offset == self.input_offset
                    &&& status.channels == health@.opened->0.in_channels
                    &&& status.failed == failed
                    &&& status.underruns == underruns
                    &&& status.overruns == 0
                },
                None => !self.input_open || health@.opened is None,
            },
    {
        match &health.opened {
            Some(card) => if self.input_open {
                Some(
                    InputStreamStatus {
                        device: Some(card.name.clone()),
                        offset: self.input_offset,
                        channels: card.in_channels,
                        failed,
                        underruns,
                        overruns: 0,
                    },
                )
            } else {
                None
            },
            None => None,
        }
    }

    /// A look at the card's output stream, if it is open. The monitor pair is
    /// not part of it.
    pub fn output_status(
        &self,
        health: &CardHealth,
        failed: bool,
        underruns: u64,
        xruns: u64,
        worst_block_us: u32,
    ) -> (status: Option<OutputStreamStatus>)
        ensures
            match status {
                Some(status) => {
                    &&& self.output_open
                    &&& health@.opened is Some
                    &&& text_of(status.device) == Some(health@.opened->0.name)
                    &&& status.offset == self.output_offset
                    &&& status.channels == if health@.opened->0.out_channels > MONITOR_CHANNELS {
                        health@.opened->0.out_channels - MONITOR_CHANNELS
                    } else {
                        0
                    }
                    &&& status.failed == failed
                    &&& status.underruns == underruns
                    &&& status.overruns == 0
                    &&& status.xruns == xruns
                    &&& status.worst_block_us == worst_block_us
                },
                None => !self.output_open || health@.opened is None,
            },
    {
        match &health.opened {
            Some(card) => if self.output_open {
                Some(
                    OutputStreamStatus {
                        device: Some(card.name.clone()),
                        offset: self.output_offset,
                        channels: card.out_channels.saturating_sub(MONITOR_CHANNELS),
                        failed,
                        underruns,
                        overruns: 0,
                        xruns,
                        worst_block_us,
                    },
                )
            } else {
                None
            },
            None => None,
        }
    }

    /// Notes that a card came up. One of another width than the one it replaces
    /// loses its routing, so that its streams are opened anew at the new width.
    pub fn reopened(&mut self, health: &mut CardHealth, card: OpenedCard)
        requires
            old(health)@.generation < u64::MAX,
        ensures
            final(health).wf(),
            final(health)@ == (HealthView {
                opened: Some(card@),
                last_error: None,
                generation: (old(health)@.generation + 1) as u64,
            }),
            *final(self) == if old(health)@.opened matches Some(before) && (before.in_channels
                != card.in_channels || before.out_channels != card.out_channels) {
                Routing {
                    input_offset: 0,
                    input_open: false,
                    output_offset: 0,
                    output_open: false,
                }
            } else {
                *old(self)
            },
    {
        let changed: bool = match &health.opened {
            Some(before) => before.in_channels != card.in_channels || before.out_channels
                != card.out_channels,
            None => false,
        };
        if changed {
            *self = Routing::default();
        }
        health.came_up(card);
    }
}

/// The backend that owns one card: which one it wants, how it is doing, and
/// what the machine granted it.
#[derive(Debug)]
pub struct AlsaBackend {
    /// `None` is the first card that opens.
    pub device: Option<String>,
    pub health: CardHealth,
    pub realtime: RealtimeStatus,
}

impl AlsaBackend {
    /// A backend that has opened nothing yet.
    pub fn new(device: Option<String>) -> (backend: AlsaBackend)
        ensures
            text_of(backend.device) == text_of(device),
            backend.health@ == (HealthView { opened: None, last_error: None, generation: 0 }),
            backend.realtime@ == (RealtimeView {
                scheduling: Scheduling::NotApplicable,
                priority: None,
                memory_locked: false,
                reason: None,
            }),
    {
        AlsaBackend {
            device,
            health: CardHealth::default(),
            realtime: RealtimeStatus::not_applicable(),
        }
    }

    /// The card that is open.
    pub fn opened(&self) -> (card: Option<OpenedCard>)
        ensures
            match card {
                Some(card) => self.health@.opened == Some(card@),
                None => self.health@.opened is None,
            },
    {
        match &self.health.opened {
            Some(card) => Some(card.clone()),
            None => None,
        }
    }

    /// The input device that is there: the open card's capture.
    pub fn input_device(&self) -> (device: Option<InputDeviceInfo>)
        ensures
            match device {
                Some(device) => {
                    &&& self.health@.opened is Some
                    &&& device.name@ == self.health@.opened->0.name
                    &&& device.description is None
                    &&& device.channels == self.health@.opened->0.in_channels
                    &&& device.active
                    &&& !device.pulse
                    &&& device.card is None
                    &&& device.channel_map is None
                    &&& !device.muted
                    &&& device.volume_percent is None
                },
                None => self.health@.opened is None,
            },
    {
        match &self.health.opened {
            Some(card) => Some(
                InputDeviceInfo {
                    name: card.name.clone(),
                    description: None,
                    channels: card.in_channels,
                    active: true,
                    pulse: false,
                    card: None,
                    channel_map: None,
                    muted: false,
                    volume_percent: None,
                },
            ),
            None => None,
        }
    }

    /// The output device that is there: the open card's playback, whose first
    /// channels are the monitor pair.
    pub fn output_device(&self) -> (device: Option<OutputDeviceInfo>)
        ensures
            match device {
                Some(device) => {
                    &&& self.health@.opened is Some
                    &&& device.name@ == self.health@.opened->0.name
                    &&& device.description is None
                    &&& device.channels == self.health@.opened->0.out_channels
                    &&& device.active
                    &&& !device.pulse
                    &&& device.card is None
                    &&& device.channel_map is None
                    &&& !device.muted
                    &&& device.volume_percent is None
                    &&& device.monitor_channels == MONITOR_CHANNELS
                },
                None => self.health@.opened is None,
            },
    {
        match &self.health.opened {
            Some(card) => Some(
                OutputDeviceInfo {
                    name: card.name.clone(),
                    description: None,
                    channels: card.out_channels,
                    active: true,
                    pulse: false,
                    card: None,
                    channel_map: None,
                    muted: false,
                    volume_percent: None,
                    monitor_channels: MONITOR_CHANNELS,
                },
            ),
            None => None,
        }
    }

    /// How the backend is doing.
    pub fn status(&self) -> (status: BackendStatus)
        ensures
            status.running == (self.health@.opened is Some),
            text_of(status.card) == match self.health@.opened {
                Some(card) => Some(card.name),
                None => None,
            },
            text_of(status.error) == self.health@.last_error,
            status.realtime@ == self.realtime@,
    {
        BackendStatus {
            running: self.health.opened.is_some(),
            card: match &self.health.opened {
                Some(card) => Some(card.name.clone()),
                None => None,
            },
            error: copy_optional_text(&self.health.last_error),
            realtime: RealtimeStatus {
                scheduling: self.realtime.scheduling,
                priority: self.realtime.priority,
                memory_locked: self.realtime.memory_locked,
                reason: copy_optional_text(&self.realtime.reason),
            },
        }
    }

    /// Moves on whenever the card comes up or goes down.
    pub fn generation(&self) -> (generation: u64)
        ensures
            generation == self.health@.generation,
    {
        self.health.generation
    }
}

/// A card never is both open and in error, whatever happens to it.
pub proof fn a_card_is_never_open_and_in_error(
    before: CardHealth,
    up: CardHealth,
    down: CardHealth,
    card: OpenedCard,
    why: String,
)
    requires
        up@ == (HealthView {
            opened: Some(card@),
            last_error: None,
            generation: (before@.generation + 1) as u64,
        }),
        down@ == (HealthView {
            opened: None,
            last_error: Some(why@),
            generation: (up@.generation + 1) as u64,
        }),
    ensures
        up.wf(),
        down.wf(),
        before@.generation + 2 <= u64::MAX ==> before@.generation < up@.generation
            < down@.generation,
{
}

/// The width to ask the card for: all it has, up to the frame's.
pub fn card_channels(available: u32) -> (channels: u32)
    ensures
        channels == if available < MAX_INPUT_CHANNELS {
            available as int
        } else {
            MAX_INPUT_CHANNELS as int
        },
{
    if available < MAX_INPUT_CHANNELS as u32 {
        available
    } else {
        MAX_INPUT_CHANNELS as u32
    }
}

/// What is said of a card that runs at another rate.
pub open spec fn rate_words(landed: u32, wanted: u32) -> Seq<char> {
    "the card runs at "@ + numeral(landed as nat) + " Hz and the engine at "@ + numeral(
        wanted as nat,
    )
        + "; it cannot be resampled without putting a converter back in the path this backend exists to remove"@
}

/// Refuses a card that did not land on the engine's rate.
pub fn check_rate(landed: u32, wanted: u32) -> (checked: Result<(), AudioError>)
    ensures
        checked is Ok <==> landed == wanted,
        checked matches Err(error) ==> (error matches AudioError::Device(why) && why@
            == rate_words(landed, wanted)),
{
    if landed == wanted {
        return Ok(());
    }
    let mut why: String = "the card runs at ".to_owned();
    push_numeral(&mut why, landed as u64);
    why.append(" Hz and the engine at ");
    push_numeral(&mut why, wanted as u64);
    why.append(
        "; it cannot be resampled without putting a converter back in the path this backend exists to remove",
    );
    Err(AudioError::Device(why))
}

/// What to do about a failed read or write.
#[derive(Debug, Clone, Copy, PartialEq, Eq, Structural)]
pub enum Remedy {
    /// An xrun: prepare the card again.
    Prepare,
    /// The card was suspended: wake it.
    Resume,
    /// The card is gone.
    GiveUp,
}

/// The error number of an xrun.
pub const EPIPE: i32 = 32;

/// The error number of a suspended card.
pub const ESTRPIPE: i32 = 86;

/// The error number of a card that is not ready yet.
pub const EAGAIN: i32 = 11;

/// How often a suspended card is asked to wake.
pub const RESUME_ATTEMPTS: u32 = 50;

/// What to do about an error number.
pub fn remedy(errno: i32) -> (remedy: Remedy)
    ensures
        remedy == if errno == EPIPE {
            Remedy::Prepare
        } else if errno == ESTRPIPE {
            Remedy::Resume
        } else {
            Remedy::GiveUp
        },
{
    if errno == EPIPE {
        Remedy::Prepare
    } else if errno == ESTRPIPE {
        Remedy::Resume
    } else {
        Remedy::GiveUp
    }
}

/// Where one direction of a card stands, as far as starting it goes.
#[derive(Debug, Clone, Copy, PartialEq, Eq, Structural)]
pub enum PcmState {
    Prepared,
    Running,
    /// Anything else, such as run dry or suspended.
    Stopped,
}

/// What it takes to get a linked pair running.
#[derive(Debug, Clone, Copy, PartialEq, Eq, Structural)]
pub enum Start {
    /// It runs already.
    Running,
    /// Playback must be filled with silence first: an empty ring would run dry at
    /// once and stop both. Where `prepare` is set, it must be prepared before that.
    Fill { prepare: bool },
}

/// How a linked pair is started.
pub fn how_to_start(capture: PcmState, playback: PcmState) -> (start: Start)
    ensures
        start == if capture == PcmState::Running {
            Start::Running
        } else {
            Start::Fill { prepare: playback == PcmState::Stopped }
        },
{
    if capture == PcmState::Running {
        return Start::Running;
    }
    Start::Fill { prepare: playback == PcmState::Stopped }
}

/// What to do after one attempt to wake a card.
#[derive(Debug, Clone, Copy, PartialEq, Eq, Structural)]
pub enum Waking {
    Awake,
    /// Wait a little, then try again.
    Wait,
    /// Stop asking, and prepare the card instead.
    Prepare,
}

/// What to do after the attempt number `attempt`, counted from 0. `failure` is
/// the attempt's error number, if it had one.
pub fn after_resume(attempt: u32, failure: Option<i32>) -> (next: Waking)
    ensures
        next == match failure {
            None => Waking::Awake,
            Some(errno) => if errno == EAGAIN && attempt + 1 < RESUME_ATTEMPTS {
                Waking::Wait
            } else {
                Waking::Prepare
            },
        },
{
    match failure {
        None => Waking::Awake,
        Some(errno) => if errno == EAGAIN && attempt < RESUME_ATTEMPTS - 1 {
            Waking::Wait
        } else {
            Waking::Prepare
        },
    }
}

/// The input frame once a captured block lies in it: silence, and the card's
/// channels from the routing's offset on, as far as the frame goes.
pub open spec fn captured(
    frame: Seq<Single>,
    block: Seq<Single>,
    frames: int,
    channels: int,
    routing: Routing,
) -> Seq<Single> {
    Seq::new(
        frame.len(),
        |i: int|
            {
                let f = i / (MAX_INPUT_CHANNELS as int);
                let c = i % (MAX_INPUT_CHANNELS as int) - routing.input_offset;
                if routing.input_open && f < frames && 0 <= c < channels {
                    block[f * channels + c]
                } else {
                    hushed(frame, frames)[i]
                }
            },
    )
}

/// Lays a captured block into the input frame.
pub fn lay_capture(
    frame: &mut Vec<Single>,
    block: &Vec<Single>,
    frames: usize,
    channels: usize,
    routing: Routing,
)
    requires
        frames * MAX_INPUT_CHANNELS <= old(frame)@.len(),
        frames * channels <= block@.len(),
    ensures
        final(frame)@ == captured(
            old(frame)@,
            block@,
            frames as int,
            channels as int,
            routing,
        ),
{
    let ghost before = frame@;
    let ghost wanted = captured(before, block@, frames as int, channels as int, routing);
    let length: usize = frame.len();
    let size: usize = block.len();
    let end: usize = frames * MAX_INPUT_CHANNELS;
    let mut i: usize = 0;
    while i < end
        invariant
            i <= end <= before.len(),
            end == frames * MAX_INPUT_CHANNELS,
            frames * channels <= size == block@.len(),
            frame@.len() == before.len() == wanted.len(),
            wanted == captured(before, block@, frames as int, channels as int, routing),
            forall|j: int| 0 <= j < i ==> #[trigger] frame@[j] == wanted[j],
            forall|j: int| i <= j < before.len() ==> #[trigger] frame@[j] == before[j],
        decreases end - i,
    {
        let f: usize = i / MAX_INPUT_CHANNELS;
        let c: usize = i % MAX_INPUT_CHANNELS;
        let offset: usize = routing.input_offset as usize;
        let value: Single = if routing.input_open && c >= offset && c - offset < channels {
            proof {
                assert(f * channels + (c - offset) < frames * channels) by (nonlinear_arith)
                    requires
                        f < frames,
                        0 <= c - offset < channels,
                ;
            }
            block[f * channels + (c - offset)]
        } else {
            Single { bits: 0 }
        };
        frame[i] = value;
        i = i + 1;
    }
    proof {
        assert forall|j: int| end <= j < before.len() implies wanted[j] == before[j] by {
            assert(j / (MAX_INPUT_CHANNELS as int) >= frames);
        }
        assert(frame@ =~= wanted);
    }
}

/// What one channel of the card plays: the monitor pair first, then the
/// routing's part of the plane, as far as the plane goes.
pub open spec fn played(
    plane: Seq<Single>,
    f: int,
    channel: int,
    channels: int,
    routing: Routing,
) -> Single {
    let monitor = if channels < MONITOR_CHANNELS {
        channels
    } else {
        MONITOR_CHANNELS as int
    };
    let at = routing.output_offset + (channel - monitor);
    if channel < monitor {
        plane[f * MAX_OUTPUT_CHANNELS + channel]
    } else if routing.output_open && at < MAX_OUTPUT_CHANNELS {
        plane[f * MAX_OUTPUT_CHANNELS + at]
    } else {
        Single { bits: 0 }
    }
}

/// Gathers the card's playback block from the plane.
pub fn gather_playback(
    plane: &Vec<Single>,
    block: &mut Vec<Single>,
    frames: usize,
    channels: usize,
    routing: Routing,
)
    requires
        frames * MAX_OUTPUT_CHANNELS <= plane@.len(),
        frames * channels <= old(block)@.len(),
        channels <= MAX_OUTPUT_CHANNELS,
    ensures
        final(block)@.len() == old(block)@.len(),
        forall|f: int, c: int|
            0 <= f < frames && 0 <= c < channels ==> #[trigger] final(block)@[f * channels + c]
                == played(plane@, f, c, channels as int, routing),
        forall|i: int|
            frames * channels <= i < old(block)@.len() ==> #[trigger] final(block)@[i]
                == old(block)@[i],
{
    let ghost before = block@;
    let length: usize = plane.len();
    let size: usize = block.len();
    let monitor: usize = if channels < MONITOR_CHANNELS as usize {
        channels
    } else {
        MONITOR_CHANNELS as usize
    };
    let offset: usize = routing.output_offset as usize;
    let mut f: usize = 0;
    while f < frames
        invariant
            f <= frames,
            frames * MAX_OUTPUT_CHANNELS <= length == plane@.len(),
            frames * channels <= size == before.len(),
            channels <= MAX_OUTPUT_CHANNELS,
            offset == routing.output_offset,
            monitor == if channels < MONITOR_CHANNELS {
                channels as int
            } else {
                MONITOR_CHANNELS as int
            },
            block@.len() == before.len(),
            forall|g: int, c: int|
                0 <= g < f && 0 <= c < channels ==> #[trigger] block@[g * channels + c] == played(
                    plane@,
                    g,
                    c,
                    channels as int,
                    routing,
                ),
            forall|i: int|
                frames * channels <= i < before.len() ==> #[trigger] block@[i] == before[i],
        decreases frames - f,
    {
        let base: usize = f * MAX_OUTPUT_CHANNELS;
        let ghost done = block@;
        let mut c: usize = 0;
        while c < channels
            invariant
                c <= channels <= MAX_OUTPUT_CHANNELS,
                f < frames,
                base == f * MAX_OUTPUT_CHANNELS,
                frames * MAX_OUTPUT_CHANNELS <= length == plane@.len(),
                frames * channels <= size == before.len(),
                offset == routing.output_offset,
                monitor == if channels < MONITOR_CHANNELS {
                    channels as int
                } else {
                    MONITOR_CHANNELS as int
                },
                block@.len() == before.len() == done.len(),
                forall|k: int|
                    0 <= k < c ==> #[trigger] block@[f * channels + k] == played(
                        plane@,
                        f as int,
                        k,
                        channels as int,
                        routing,
                    ),
                forall|i: int|
                    0 <= i < f * channels || frames * channels <= i < before.len()
                        ==> #[trigger] block@[i] == done[i],
            decreases channels - c,
        {
            proof {
                assert(f * channels + c < frames * channels) by (nonlinear_arith)
                    requires
                        f < frames,
                        c < channels,
                ;
                assert(0 <= f * channels) by (nonlinear_arith);
            }
            let value: Single = if c < monitor {
                plane[base + c]
            } else if routing.output_open && offset + (c - monitor) < MAX_OUTPUT_CHANNELS {
                plane[base + offset + (c - monitor)]
            } else {
                Single { bits: 0 }
            };
            block[f * channels + c] = value;
            c = c + 1;
        }
        proof {
            assert forall|g: int, c: int|
                0 <= g < f + 1 && 0 <= c < channels implies #[trigger] block@[g * channels + c]
                == played(plane@, g, c, channels as int, routing) by {
                if g < f {
                    assert(0 <= g * channels + c < f * channels) by (nonlinear_arith)
                        requires
                            0 <= g < f,
                            0 <= c < channels,
                    ;
                    assert(done[g * channels + c] == played(plane@, g, c, channels as int, routing));
                } else {
                    assert(block@[f * channels + c] == played(
                        plane@,
                        f as int,
                        c,
                        channels as int,
                        routing,
                    ));
                }
            }
        }
        f = f + 1;
    }
}

/// The next wake-up of a clock that runs at block cadence, and how long to
/// sleep until this one. A clock that fell more than eight blocks behind
/// starts over from now. Times are in nanoseconds.
pub fn pace(next: u64, now: u64, block: u64) -> (step: (u64, u64))
    requires
        next + block <= u64::MAX,
        now + block <= u64::MAX,
        block * 8 <= u64::MAX,
    ensures
        step == if next > now {
            ((next - now) as u64, (next + block) as u64)
        } else if now - next > block * 8 {
            (0u64, (now + block) as u64)
        } else {
            (0u64, (next + block) as u64)
        },
{
    if next > now {
        (next - now, next + block)
    } else if now - next > block * 8 {
        (0, now + block)
    } else {
        (0, next + block)
    }
}

} // verus!
