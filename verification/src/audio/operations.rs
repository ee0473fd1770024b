//! What the audio side's operations are for.

use vstd::prelude::*;

use crate::audio::assembler::assembled;
use crate::audio::assembler::filled;
use crate::audio::assembler::heard;
use crate::audio::assembler::missed;
use crate::audio::assembler::popped;
use crate::audio::assembler::AssemblerCmd;
use crate::audio::assembler::Attached;
use crate::audio::assembler::InputAssembler;
use crate::audio::backend::AudioError;
use crate::audio::backend::BackendStatus;
use crate::audio::backend::CardInfo;
use crate::audio::backend::InputDeviceInfo;
use crate::audio::backend::InputStreamStatus;
use crate::audio::backend::OpenInput;
use crate::audio::backend::OpenOutput;
use crate::audio::backend::OutputDeviceInfo;
use crate::audio::backend::OutputStreamStatus;
use crate::audio::backend::RealtimeStatus;
use crate::audio::backend::Scheduling;
use crate::audio::disassembler::pair_of;
use crate::audio::disassembler::push_monitor;
use crate::audio::disassembler::scattered;
use crate::audio::disassembler::served;
use crate::audio::disassembler::AttachedOutput;
use crate::audio::disassembler::DisassemblerCmd;
use crate::audio::disassembler::OutputDisassembler;
use crate::audio::duplex::after_resume;
use crate::audio::duplex::card_channels;
use crate::audio::duplex::check_rate;
use crate::audio::duplex::gather_playback;
use crate::audio::duplex::how_to_start;
use crate::audio::duplex::lay_capture;
use crate::audio::duplex::next_format;
use crate::audio::duplex::pace;
use crate::audio::duplex::remedy;
use crate::audio::duplex::AlsaBackend;
use crate::audio::duplex::CardHealth;
use crate::audio::duplex::OpenedCard;
use crate::audio::duplex::PcmState;
use crate::audio::duplex::Remedy;
use crate::audio::duplex::Routing;
use crate::audio::duplex::SampleFormat;
use crate::audio::duplex::Start;
use crate::audio::duplex::Waking;
use crate::audio::listing::whole_frames_are_taken;
use crate::audio::plugs::a_card_is_captured_at_its_offset;
use crate::audio::plugs::a_channel_without_a_device_is_silent;
use crate::audio::plugs::every_pop_gave_or_missed;
use crate::audio::plugs::every_row_is_offered;
use crate::audio::plugs::the_pair_is_the_first_two_channels;
use crate::audio::probe::refusals;
use crate::audio::probe::CardSearch;
use crate::audio::pulse::cards_from;
use crate::audio::pulse::describe_card;
use crate::audio::pulse::describe_source;
use crate::audio::pulse::parse_cards;
use crate::audio::pulse::parse_sources;
use crate::audio::pulse::sources_from;
use crate::audio::pulse::take_frames;
use crate::audio::pulse::PulseCard;
use crate::audio::pulse::PulseSource;
use crate::audio::realtime::posture;
use crate::audio::realtime::settle;
use crate::audio::realtime::Limits;
use crate::audio::stall::Monitor;
use crate::audio::stall::MonitorKeeper;
use crate::audio::stall::StallWatch;
use crate::audio::stall::Transition;
use crate::audio::stall::WorstBlock;
use crate::audio::streams::pour_out;
use crate::audio::streams::prefill;
use crate::audio::streams::raw_input;
use crate::audio::streams::raw_output;
use crate::audio::streams::ring_samples;
use crate::audio::streams::shows_more;
use crate::audio::streams::stream_devices;
use crate::audio::streams::trim;
use crate::audio::streams::OpenStreams;
use crate::audio::streams::ToneStream;
use crate::engine::ring::one_by_one;
use crate::engine::ring::Look;
use crate::engine::ring::RingRx;
use crate::engine::ring::RingTx;
use crate::json::json_of;
use crate::json::parse_json;
use crate::json::Json;
use crate::seqs::lemma_first;
use crate::seqs::views;
use crate::single::Single;
use crate::text::text_of;

verus! {

/// A stream counts as stalled when its beat has stood still for two seconds, once. A
/// beat that moves again ends the outage, and says how long it was.
pub proof fn when_a_stream_stalls(
    watch: &mut StallWatch,
    beat: u64,
    now: u64,
    transition: Option<Transition>,
)
    requires
        call_ensures(StallWatch::observe, (watch, beat, now), transition),
        now >= old(watch).last_advance,
    ensures
        beat != old(watch).last_beat && !old(watch).stalled ==> transition is None,
        beat != old(watch).last_beat && old(watch).stalled ==> transition == Some(
            Transition::Resumed((now - old(watch).last_advance) as u64),
        ),
        beat != old(watch).last_beat ==> final(watch).last_beat == beat && final(watch).last_advance
            == now && !final(watch).stalled,
        beat == old(watch).last_beat && !old(watch).stalled && now - old(watch).last_advance
            >= 2_000_000_000 ==> transition == Some(Transition::Stalled) && final(watch).stalled,
        beat == old(watch).last_beat && (old(watch).stalled || now - old(watch).last_advance
            < 2_000_000_000) ==> transition is None && *final(watch) == *old(watch),
{
}

/// A watch that looks twice at a still beat reports the stall once.
pub proof fn a_stall_is_reported_once(
    watch: &mut StallWatch,
    again: &mut StallWatch,
    beat: u64,
    now: u64,
    later: u64,
    first: Option<Transition>,
    second: Option<Transition>,
)
    requires
        call_ensures(StallWatch::observe, (watch, beat, now), first),
        call_ensures(StallWatch::observe, (again, beat, later), second),
        *old(again) == *final(watch),
        first == Some(Transition::Stalled),
    ensures
        second is None,
        final(again).stalled,
{
}

/// A monitor that stalled is due for a rebuild five seconds later, and again five
/// seconds after every try, until it is back.
pub proof fn when_a_monitor_is_rebuilt(
    keeper: &mut MonitorKeeper,
    beat: u64,
    now: u64,
    news: Monitor,
    later: u64,
    due: bool,
    trying: &mut MonitorKeeper,
)
    requires
        call_ensures(MonitorKeeper::look, (keeper, beat, now), news),
        call_ensures(MonitorKeeper::due, (&*final(keeper), later), due),
        call_ensures(MonitorKeeper::tried, (trying, later), ()),
        *old(trying) == *final(keeper),
        later >= now,
    ensures
        news == Monitor::Stalled ==> (due <==> later - now >= 5_000_000_000),
        news is Resumed ==> !due,
        news == Monitor::Leave && old(keeper).stalled_since is None ==> !due,
        news == Monitor::Leave ==> final(keeper).stalled_since == old(keeper).stalled_since,
        final(trying).stalled_since == Some(later),
        final(trying).watch == final(keeper).watch,
{
}

/// The longest block of a second is told at its end, and the count starts over.
pub proof fn the_longest_block_is_told(
    watch: &mut WorstBlock,
    micros: u32,
    now: u64,
    told: Option<u32>,
)
    requires
        call_ensures(WorstBlock::note, (watch, micros, now), told),
        now >= old(watch).since,
    ensures
        told is Some <==> now - old(watch).since >= 1_000_000_000,
        told matches Some(worst) ==> {
            &&& worst >= micros && worst >= old(watch).worst
            &&& worst == micros || worst == old(watch).worst
            &&& final(watch).worst == 0
            &&& final(watch).since == now
        },
        told is None ==> {
            &&& final(watch).worst >= micros && final(watch).worst >= old(watch).worst
            &&& final(watch).worst == micros || final(watch).worst == old(watch).worst
            &&& final(watch).since == old(watch).since
        },
{
}

/// 32 bits are tried first, then 16, then nothing.
pub proof fn formats_are_tried_in_turn(
    first: Option<SampleFormat>,
    second: Option<SampleFormat>,
    third: Option<SampleFormat>,
)
    requires
        call_ensures(next_format, (None::<SampleFormat>,), first),
        call_ensures(next_format, (first,), second),
        call_ensures(next_format, (second,), third),
    ensures
        first == Some(SampleFormat::S32),
        second == Some(SampleFormat::S16),
        third is None,
{
}

/// A card that comes up is open and without an error. One that goes down is not open,
/// and says why. Both are news.
pub proof fn a_card_comes_up_and_goes_down(
    health: &mut CardHealth,
    card: OpenedCard,
    later: &mut CardHealth,
    why: String,
)
    requires
        call_ensures(CardHealth::came_up, (health, card), ()),
        call_ensures(CardHealth::went_down, (later, why), ()),
        *old(later) == *final(health),
        old(health)@.generation < u64::MAX - 1,
    ensures
        final(health)@.opened == Some(card@),
        final(health)@.last_error is None,
        final(health)@.generation == old(health)@.generation + 1,
        final(later)@.opened is None,
        final(later)@.last_error == Some(why@),
        final(later)@.generation == old(health)@.generation + 2,
{
}

/// An input is opened on the open card, by its name or by none, at the offset asked
/// for. Another card is refused, and nothing changes. Closing shuts it, and leaves the
/// output alone.
pub proof fn opening_a_cards_input(
    routing: &mut Routing,
    health: &CardHealth,
    req: &OpenInput,
    opened: Result<(), AudioError>,
    later: &mut Routing,
)
    requires
        call_ensures(Routing::open_input, (routing, health, req), opened),
        call_ensures(Routing::close_input, (later,), ()),
        *old(later) == *final(routing),
    ensures
        opened is Ok <==> health@.opened is Some && (req.device is None || req.device->0@
            == health@.opened->0.name),
        opened is Ok ==> final(routing).input_open && final(routing).input_offset == req.offset,
        opened is Err ==> *final(routing) == *old(routing),
        final(routing).output_open == old(routing).output_open,
        final(routing).output_offset == old(routing).output_offset,
        !final(later).input_open,
        final(later).output_open == old(routing).output_open,
{
}

/// An output is opened on the open card likewise.
pub proof fn opening_a_cards_output(
    routing: &mut Routing,
    health: &CardHealth,
    req: &OpenOutput,
    opened: Result<(), AudioError>,
    later: &mut Routing,
)
    requires
        call_ensures(Routing::open_output, (routing, health, req), opened),
        call_ensures(Routing::close_output, (later,), ()),
        *old(later) == *final(routing),
    ensures
        opened is Ok <==> health@.opened is Some && (req.device is None || req.device->0@
            == health@.opened->0.name),
        opened is Ok ==> final(routing).output_open && final(routing).output_offset == req.offset,
        opened is Err ==> *final(routing) == *old(routing),
        final(routing).input_open == old(routing).input_open,
        final(routing).input_offset == old(routing).input_offset,
        !final(later).output_open,
        final(later).input_open == old(routing).input_open,
{
}

/// What a card that is open says of its streams: its name, its offset and its
/// channels, less the monitor pair for the output. A stream that is not open says
/// nothing.
pub proof fn what_a_cards_streams_say(
    routing: &Routing,
    health: &CardHealth,
    failed: bool,
    underruns: u64,
    xruns: u64,
    worst: u32,
    input: Option<InputStreamStatus>,
    output: Option<OutputStreamStatus>,
)
    requires
        call_ensures(Routing::input_status, (routing, health, failed, underruns), input),
        call_ensures(
            Routing::output_status,
            (routing, health, failed, underruns, xruns, worst),
            output,
        ),
    ensures
        input matches Some(status) ==> {
            &&& routing.input_open && health@.opened is Some
            &&& status.offset == routing.input_offset
            &&& status.channels == health@.opened->0.in_channels
        },
        output matches Some(status) ==> {
            &&& routing.output_open && health@.opened is Some
            &&& status.offset == routing.output_offset
            &&& health@.opened->0.out_channels >= 2 ==> status.channels
                == health@.opened->0.out_channels - 2
            &&& health@.opened->0.out_channels < 2 ==> status.channels == 0
        },
{
}

/// A card gives as many channels as it has, up to 64.
pub proof fn a_card_gives_its_channels(available: u32, channels: u32)
    requires
        call_ensures(card_channels, (available,), channels),
    ensures
        available <= 64 ==> channels == available,
        available > 64 ==> channels == 64,
{
}

/// A card runs at the engine's rate or not at all.
pub proof fn a_card_runs_at_the_engines_rate(
    landed: u32,
    wanted: u32,
    checked: Result<(), AudioError>,
)
    requires
        call_ensures(check_rate, (landed, wanted), checked),
    ensures
        checked is Ok <==> landed == wanted,
        checked matches Err(error) ==> error is Device,
{
}

/// A broken pipe is mended by preparing the card, a suspended one by waking it, and
/// anything else means that the card is gone.
pub proof fn how_a_card_is_mended(errno: i32, cure: Remedy)
    requires
        call_ensures(remedy, (errno,), cure),
    ensures
        errno == 32 ==> cure == Remedy::Prepare,
        errno == 86 ==> cure == Remedy::Resume,
        errno != 32 && errno != 86 ==> cure == Remedy::GiveUp,
{
}

/// A card whose capture runs is left alone. Otherwise playback is filled first, and
/// prepared before that where it had stopped.
pub proof fn how_a_card_is_started(capture: PcmState, playback: PcmState, start: Start)
    requires
        call_ensures(how_to_start, (capture, playback), start),
    ensures
        capture == PcmState::Running ==> start == Start::Running,
        capture != PcmState::Running ==> (start matches Start::Fill { prepare } && (prepare
            <==> playback == PcmState::Stopped)),
{
}

/// A card that is woken is asked up to fifty times while it says to try again, and is
/// prepared instead where it says anything else or does not wake.
pub proof fn how_a_card_is_woken(attempt: u32, failure: Option<i32>, next: Waking)
    requires
        call_ensures(after_resume, (attempt, failure), next),
    ensures
        failure is None ==> next == Waking::Awake,
        failure == Some(11i32) && attempt < 49 ==> next == Waking::Wait,
        failure == Some(11i32) && attempt >= 49 ==> next == Waking::Prepare,
        failure is Some && failure->0 != 11 ==> next == Waking::Prepare,
{
}

/// What a card captures lands at its offset.
pub proof fn capturing_a_card(
    frame: &mut Vec<Single>,
    block: &Vec<Single>,
    frames: usize,
    channels: usize,
    routing: Routing,
    f: int,
    c: int,
)
    requires
        call_ensures(lay_capture, (frame, block, frames, channels, routing), ()),
        routing.input_open,
        0 <= f < frames,
        0 <= c < channels,
        routing.input_offset + c < 64,
        f * 64 + routing.input_offset + c < old(frame)@.len(),
    ensures
        final(frame)@[f * 64 + routing.input_offset + c] == block@[f * channels + c],
{
    a_card_is_captured_at_its_offset(
        old(frame)@,
        block@,
        frames as int,
        channels as int,
        routing,
        f,
        routing.input_offset + c,
    );
}

/// A block is due one block after the last, waits until then, and starts over from now
/// where it fell behind by more than eight.
pub proof fn how_blocks_are_paced(next: u64, now: u64, block: u64, step: (u64, u64))
    requires
        call_ensures(pace, (next, now, block), step),
        next + block <= u64::MAX,
        now + block <= u64::MAX,
        block * 8 <= u64::MAX,
    ensures
        next > now ==> step.0 == next - now && step.1 == next + block,
        next <= now ==> step.0 == 0,
        next <= now && now - next <= block * 8 ==> step.1 == next + block,
        next <= now && now - next > block * 8 ==> step.1 == now + block,
{
}

/// A device is noted once, gives its offset back when it is closed, and is then not
/// open.
pub proof fn a_stream_is_opened_and_closed(
    streams: &mut OpenStreams,
    device: &Option<String>,
    offset: u16,
    noted: bool,
    later: &mut OpenStreams,
    gave: Option<u16>,
    open: bool,
)
    requires
        call_ensures(OpenStreams::opened, (streams, device, offset), noted),
        call_ensures(OpenStreams::closed, (later, device), gave),
        *old(later) == *final(streams),
        call_ensures(OpenStreams::is_open, (&*final(later), device), open),
        old(streams)@.len() == 0,
    ensures
        noted,
        gave == Some(offset),
        !open,
        final(later)@.len() == 0,
{
    let seen = stream_devices(final(streams)@);
    let name = text_of(*device);
    assert(old(streams)@ =~= Seq::empty());
    assert(!stream_devices(old(streams)@).contains(name));
    assert(seen[0] == name);
    lemma_first(seen, name, 0);
}

/// A ring holds sixteen blocks of every channel.
pub proof fn a_ring_holds_sixteen_blocks(block_size: usize, channels: u16, samples: usize)
    requires
        call_ensures(ring_samples, (block_size, channels), samples),
        block_size * channels * 16 <= usize::MAX,
    ensures
        samples == block_size * channels * 16,
{
}

/// A ring that is prefilled with room to spare holds so many frames of silence.
pub proof fn a_ring_is_prefilled_with_silence(tx: &mut RingTx<Single>, frames: usize, i: int)
    requires
        call_ensures(prefill, (tx, frames), ()),
        old(tx).room() >= frames * 2,
        old(tx).sent().len() <= i < old(tx).sent().len() + frames * 2,
    ensures
        final(tx).sent().len() == old(tx).sent().len() + frames * 2,
        final(tx).sent()[i].bits == 0,
{
}

/// The test tone is opened as the default, at the first channel, and nothing else is.
pub proof fn the_test_tone_is_the_default(
    tone: &mut ToneStream,
    req: OpenInput,
    opened: Result<(), AudioError>,
    later: &mut ToneStream,
)
    requires
        call_ensures(ToneStream::open_input, (tone, req), opened),
        call_ensures(ToneStream::close_input, (later, None::<&str>), ()),
        *old(later) == *final(tone),
    ensures
        opened is Ok <==> req.device is None && req.offset == 0,
        opened is Ok ==> final(tone).opened == Some(req),
        opened is Err ==> final(tone).opened == old(tone).opened,
        final(later).opened is None,
{
}

/// Real-time scheduling takes a limit of 10, and locked memory one of 8 MiB. What the
/// machine does not grant is not claimed, and comes with a reason.
pub proof fn what_the_machine_grants(limits: Limits, status: RealtimeStatus)
    requires
        call_ensures(posture, (limits,), status),
    ensures
        limits.rtprio >= 10 ==> status@.scheduling == Scheduling::Fifo && status@.priority == Some(
            10u32,
        ),
        limits.rtprio < 10 ==> status@.scheduling == Scheduling::Other && status@.priority is None
            && !status@.memory_locked && status@.reason is Some,
        status@.memory_locked <==> limits.rtprio >= 10 && (limits.memlock is None
            || limits.memlock->0 >= 8_388_608),
        status@.reason is None <==> status@.memory_locked,
{
}

/// What the kernel refused after all is not claimed, and what it granted stays.
pub proof fn what_the_kernel_refused(
    status: RealtimeStatus,
    fifo: bool,
    locked: bool,
    settled: RealtimeStatus,
)
    requires
        call_ensures(settle, (status, fifo, locked), settled),
    ensures
        fifo && locked ==> settled@ == status@,
        status@.scheduling == Scheduling::Fifo && !fifo ==> settled@.scheduling
            == Scheduling::Other && settled@.priority is None && settled@.reason is Some,
        fifo ==> settled@.scheduling == status@.scheduling && settled@.priority == status@.priority,
        settled@.memory_locked <==> status@.memory_locked && locked,
        status@.memory_locked && !locked ==> settled@.reason is Some,
{
}

/// Every refusal is told with its card and its reason, one behind the other.
pub proof fn refusals_are_told_in_order(names: Seq<Seq<char>>, whys: Seq<Seq<char>>, n: int)
    requires
        1 <= n,
    ensures
        refusals(names, whys, 0).len() == 0,
        refusals(names, whys, 1) == names[0] + ": "@ + whys[0],
        refusals(names, whys, n + 1) == refusals(names, whys, n) + "; "@ + (names[n] + ": "@
            + whys[n]),
{
}

/// The cards are tried in order, and each is refused under its own name.
pub proof fn cards_are_tried_in_order(search: &mut CardSearch, why: &str, next: Option<&str>)
    requires
        call_ensures(CardSearch::refuse, (search, why), ()),
        call_ensures(CardSearch::candidate, (&*final(search),), next),
        old(search).wf(),
        old(search).whys().len() < old(search).candidates().len(),
    ensures
        final(search).whys() == old(search).whys().push(why@),
        next matches Some(name) ==> name@ == old(search).candidates()[old(
            search,
        ).whys().len() as int + 1],
        next is None <==> old(search).whys().len() + 1 == old(search).candidates().len(),
{
}

/// A new assembler has room for 16 devices on 64 channels and obeys up to 32 commands
/// at a time; a new disassembler has room for 8 devices and obeys up to 16.
pub proof fn how_many_devices_there_is_room_for(
    input_rx: RingRx<AssemblerCmd>,
    input_tx: RingTx<Box<Attached>>,
    assembler: InputAssembler,
    output_rx: RingRx<DisassemblerCmd>,
    output_tx: RingTx<Box<AttachedOutput>>,
    disassembler: OutputDisassembler,
    i: int,
)
    requires
        call_ensures(InputAssembler::new, (input_rx, input_tx), assembler),
        call_ensures(OutputDisassembler::new, (output_rx, output_tx), disassembler),
    ensures
        assembler.bay@.slots.len() == 16,
        assembler.bay@.frame == 64,
        assembler.bay@.handed.len() == 0,
        0 <= i < 16 ==> assembler.bay@.slots[i] is None,
        disassembler.bay@.slots.len() == 8,
        disassembler.bay@.frame == 64,
        disassembler.bay@.handed.len() == 0,
        0 <= i < 8 ==> disassembler.bay@.slots[i] is None,
        assembler.bay.budget() == 32,
        assembler.bay.outbox().places() == 16,
        disassembler.bay.budget() == 16,
        disassembler.bay.outbox().places() == 8,
{
}

/// An assembler lays what its devices give at their offsets, and silence where no
/// device is.
pub proof fn assembling_a_frame(
    assembler: &mut InputAssembler,
    frame: &mut Vec<Single>,
    frames: usize,
    f: int,
    channel: int,
)
    requires
        call_ensures(InputAssembler::fill, (assembler, frame, frames), ()),
        frames * 64 <= old(frame)@.len(),
        0 <= f < frames,
        0 <= channel < 64,
        forall|i: int|
            0 <= i < old(assembler).bay@.slots.len() ==> ((#[trigger] old(assembler).bay@.slots[i])
                matches Some(other) ==> channel < other.offset || other.offset + other.channels
                <= channel),
    ensures
        final(frame)@[f * 64 + channel].bits == 0,
{
    let slots = old(assembler).bay@.slots;
    let pops = choose|pops: Seq<Seq<Option<Single>>>| #[trigger]
        filled(slots, final(assembler).bay@.slots, pops, frames as int) && final(frame)@
            == assembled(old(frame)@, slots, pops, frames as int, slots.len() as int);
    a_channel_without_a_device_is_silent(old(frame)@, slots, pops, frames as int, f, channel);
}

/// Every sample of the monitor pair is offered to the monitor's ring, left and right
/// in turn.
pub proof fn pushing_the_monitor(
    tx: &mut RingTx<Single>,
    plane: &Vec<Single>,
    frames: usize,
    f: int,
)
    requires
        call_ensures(push_monitor, (tx, plane, frames), ()),
        0 <= f < frames,
    ensures
        ({
            let before = old(tx).offered().len();
            &&& final(tx).offered().len() == before + 2 * frames
            &&& final(tx).offered()[before + 2 * f] == seq![plane@[f * 64]]
            &&& final(tx).offered()[before + 2 * f + 1] == seq![plane@[f * 64 + 1]]
        }),
{
    let pair = pair_of(plane@, 2 * frames);
    the_pair_is_the_first_two_channels(plane@, frames as int, f);
    let offers = one_by_one(pair);
    assert(offers.len() == 2 * frames);
    assert(offers[2 * f] =~= seq![pair[2 * f]]);
    assert(offers[2 * f + 1] =~= seq![pair[2 * f + 1]]);
}

/// Bytes that came in are taken as whole frames of samples, and the rest is kept for
/// the next.
pub proof fn taking_whole_frames(
    carry: &mut Vec<u8>,
    channels: usize,
    samples: Vec<Single>,
    i: int,
)
    requires
        call_ensures(take_frames, (carry, channels), samples),
        channels > 0,
        0 <= i < samples@.len(),
    ensures
        samples@.len() as int % channels as int == 0,
        final(carry)@.len() < channels * 4,
        samples@.len() * 4 + final(carry)@.len() == old(carry)@.len(),
        samples@[i].bits == old(carry)@[i * 4] + old(carry)@[i * 4 + 1] * 256 + old(carry)@[i * 4
            + 2] * 65536 + old(carry)@[i * 4 + 3] * 16777216,
{
    whole_frames_are_taken(old(carry)@.len() as int, channels as int);
}

/// A source is offered as it is listed.
pub proof fn a_source_is_offered_as_listed(source: PulseSource, device: InputDeviceInfo)
    requires
        call_ensures(describe_source, (source,), device),
    ensures
        device.name@ == source@.name,
        device.description is Some && device.description->0@ == source@.description,
        device.channels == source@.channels,
        device.active == source@.default,
        device.pulse,
        device.muted == source@.muted,
        device.volume_percent == source@.volume_percent,
{
}

/// A raw device is the default where it has the default's name, and is not opened
/// through the sound server.
pub proof fn a_raw_device_is_what_it_says(
    name: String,
    channels: u16,
    default: &Option<String>,
    input: InputDeviceInfo,
    output: OutputDeviceInfo,
)
    requires
        call_ensures(raw_input, (name, channels, default), input),
        call_ensures(raw_output, (name, channels, default), output),
    ensures
        input.name == name && output.name == name,
        input.channels == channels && output.channels == channels,
        input.active <==> default is Some && default->0@ == name@,
        output.active <==> default is Some && default->0@ == name@,
        !input.pulse && !output.pulse,
        !input.muted && !output.muted,
{
}

/// The open card is offered with all of its channels, the monitor pair among the
/// output's, and none is offered where no card is open.
pub proof fn the_open_card_is_offered(
    backend: &AlsaBackend,
    input: Option<InputDeviceInfo>,
    status: BackendStatus,
    generation: u64,
)
    requires
        call_ensures(AlsaBackend::input_device, (backend,), input),
        call_ensures(AlsaBackend::status, (backend,), status),
        call_ensures(AlsaBackend::generation, (backend,), generation),
    ensures
        input matches Some(device) ==> {
            &&& backend.health@.opened is Some
            &&& device.name@ == backend.health@.opened->0.name
            &&& device.channels == backend.health@.opened->0.in_channels
            &&& device.active
        },
        status.running <==> backend.health@.opened is Some,
        generation == backend.health@.generation,
{
}

/// A card that comes back with as many channels as before keeps its streams. One that
/// comes back with others has none. Either way it is up, under the next generation.
pub proof fn a_card_comes_back(
    routing: &mut Routing,
    health: &mut CardHealth,
    card: OpenedCard,
)
    requires
        call_ensures(Routing::reopened, (routing, health, card), ()),
        old(health)@.generation < u64::MAX,
    ensures
        final(health)@.opened == Some(card@),
        final(health)@.last_error is None,
        final(health)@.generation == old(health)@.generation + 1,
        old(health)@.opened is None ==> *final(routing) == *old(routing),
        old(health)@.opened matches Some(before) ==> before.in_channels == card.in_channels
            ==> before.out_channels == card.out_channels ==> *final(routing) == *old(routing),
        old(health)@.opened matches Some(before) ==> before.in_channels != card.in_channels
            || before.out_channels != card.out_channels ==> !final(routing).input_open
            && !final(routing).output_open && final(routing).input_offset == 0
            && final(routing).output_offset == 0,
{
}

/// A backend begins without a card, without an error and without a thread.
pub proof fn a_backend_begins_down(
    device: Option<String>,
    backend: AlsaBackend,
    card: Option<OpenedCard>,
    status: BackendStatus,
)
    requires
        call_ensures(AlsaBackend::new, (device,), backend),
        call_ensures(AlsaBackend::opened, (&backend,), card),
        call_ensures(AlsaBackend::status, (&backend,), status),
    ensures
        text_of(backend.device) == text_of(device),
        card is None,
        !status.running,
        status.card is None,
        status.error is None,
        status.realtime@.scheduling == Scheduling::NotApplicable,
        status.realtime@.priority is None,
        !status.realtime@.memory_locked,
        status.realtime@.reason is None,
        backend.health@.generation == 0,
{
}

/// The open card gives all of its channels out, of which the monitor takes two.
pub proof fn the_open_card_plays(
    backend: &AlsaBackend,
    card: Option<OpenedCard>,
    device: Option<OutputDeviceInfo>,
)
    requires
        call_ensures(AlsaBackend::opened, (backend,), card),
        call_ensures(AlsaBackend::output_device, (backend,), device),
    ensures
        card is Some <==> device is Some,
        card matches Some(open) ==> device matches Some(info) && info.name@ == open@.name
            && info.channels == open@.out_channels && info.active && !info.pulse && !info.muted
            && info.monitor_channels == 2,
{
}

/// A card plays the monitor pair on its first two channels, and behind them what is
/// patched to it. What lies behind its block is left alone.
pub proof fn playing_a_card(
    plane: &Vec<Single>,
    block: &mut Vec<Single>,
    frames: usize,
    channels: usize,
    routing: Routing,
    f: int,
    c: int,
    i: int,
)
    requires
        call_ensures(gather_playback, (plane, block, frames, channels, routing), ()),
        0 <= f < frames,
        0 <= c < channels,
        frames * channels <= i < old(block)@.len(),
    ensures
        final(block)@.len() == old(block)@.len(),
        final(block)@[i] == old(block)@[i],
        c < 2 ==> final(block)@[f * channels + c] == plane@[f * 64 + c],
        c >= 2 && routing.output_open && routing.output_offset + c - 2 < 64 ==> final(block)@[f
            * channels + c] == plane@[f * 64 + routing.output_offset + c - 2],
        c >= 2 && (!routing.output_open || routing.output_offset + c - 2 >= 64) ==> final(block)@[f
            * channels + c] == (Single { bits: 0 }),
{
}

/// What an error tells a reader.
pub proof fn how_an_audio_error_reads(
    error: &AudioError,
    text: String,
    landed: u32,
    wanted: u32,
    checked: Result<(), AudioError>,
)
    requires
        call_ensures(AudioError::to_string, (error,), text),
        call_ensures(check_rate, (landed, wanted), checked),
    ensures
        text@ == match *error {
            AudioError::Device(why) => "no usable device: "@ + why@,
            AudioError::Stream(why) => "stream failed: "@ + why@,
        },
        landed == wanted ==> checked is Ok,
        landed != wanted ==> checked matches Err(AudioError::Device(_)),
{
}

/// A listing that does not read gives no sources and no cards.
pub proof fn a_listing_has_to_read(
    json: &str,
    name: &str,
    sources: Option<Vec<PulseSource>>,
    cards: Option<Vec<PulseCard>>,
)
    requires
        call_ensures(parse_sources, (json, name), sources),
        call_ensures(parse_cards, (json,), cards),
        json_of(json@) is None,
    ensures
        sources is None,
        cards is None,
{
}

/// A listing that reads gives what its value gives.
pub proof fn a_listing_gives_what_it_says(
    json: &str,
    name: &str,
    list: &Json,
    sources: Option<Vec<PulseSource>>,
    again: Option<Vec<PulseSource>>,
    cards: Option<Vec<PulseCard>>,
    once_more: Option<Vec<PulseCard>>,
)
    requires
        call_ensures(parse_json, (json,), Some(*list)),
        call_ensures(parse_sources, (json, name), sources),
        call_ensures(sources_from, (list, name), again),
        call_ensures(parse_cards, (json,), cards),
        call_ensures(cards_from, (list,), once_more),
    ensures
        sources is Some <==> again is Some,
        sources matches Some(a) ==> again matches Some(b) && views(a@) == views(b@),
        cards is Some <==> once_more is Some,
        cards matches Some(a) ==> once_more matches Some(b) && views(a@) == views(b@),
{
}

/// A card is offered under its name, with its profiles as they are listed.
pub proof fn a_card_is_offered_as_listed(card: PulseCard, info: CardInfo, i: int)
    requires
        call_ensures(describe_card, (card,), info),
        0 <= i < info.profiles@.len(),
    ensures
        info.name@ == card@.name,
        info.active_profile@ == card@.active_profile,
        info.profiles@.len() == card@.profiles.len(),
        info.profiles@[i].name@ == card@.profiles[i].name,
        info.profiles@[i].description@ == card@.profiles[i].description,
{
}

/// Every frame of the plane is offered to each device: the channels from its offset on,
/// one row a frame.
pub proof fn a_device_is_offered_its_channels(
    disassembler: &mut OutputDisassembler,
    plane: &Vec<Single>,
    frames: usize,
    j: int,
    f: int,
    c: int,
)
    requires
        call_ensures(OutputDisassembler::scatter, (disassembler, plane, frames), ()),
        old(disassembler).wf(),
        frames * 64 <= plane@.len(),
        0 <= j < old(disassembler).bay@.slots.len(),
        old(disassembler).bay@.slots[j] is Some,
        0 <= f < frames,
        0 <= c < old(disassembler).bay@.slots[j]->0.channels,
        old(disassembler).bay@.slots[j]->0.offset + old(disassembler).bay@.slots[j]->0.channels
            <= 64,
    ensures
        ({
            let before = old(disassembler).bay@.slots[j]->0;
            let after = final(disassembler).bay@.slots[j];
            &&& after matches Some(device) && device.offset == before.offset && device.channels
                == before.channels && device.producer.offered().len()
                == before.producer.offered().len() + frames && device.producer.offered()[(
            before.producer.offered().len() + f) as int][c] == plane@[f * 64 + before.offset + c]
        }),
{
    let before = old(disassembler).bay@.slots[j]->0;
    let kept = choose|kept: Seq<Seq<bool>>| #[trigger]
        scattered(
            old(disassembler).bay@.slots,
            final(disassembler).bay@.slots,
            plane@,
            kept,
            frames as int,
        );
    assert(served(
        old(disassembler).bay@.slots[j],
        final(disassembler).bay@.slots[j],
        plane@,
        kept[j],
        frames as int,
    ));
    every_row_is_offered(
        plane@,
        before.offset as int,
        64,
        before.channels as int,
        frames as int,
        f,
        c,
    );
}

/// A ring that runs ahead is trimmed sample by sample, until a look shows no more than
/// is to be kept.
pub proof fn trimming_a_ring(rx: &mut RingRx<Single>, keep: usize, i: int)
    requires
        call_ensures(trim, (rx, keep), ()),
        final(rx).looks().len() - old(rx).looks().len() < u64::MAX,
    ensures
        final(rx).looks().len() > old(rx).looks().len(),
        final(rx).looks().last() matches Look::Waiting(left) && left <= keep,
        old(rx).looks().len() <= i < final(rx).looks().len() - 1 ==> (final(rx).looks()[i] matches
            Look::Waiting(left) && left > keep),
        final(rx).taken().len() - old(rx).taken().len() == final(rx).looks().len() - old(
            rx,
        ).looks().len() - 1,
        final(rx).misses() == old(rx).misses(),
{
    let seen = final(rx).looks().skip(old(rx).looks().len() as int);
    assert(seen.last() == final(rx).looks().last());
    assert(seen.last() == seen[seen.len() - 1]);
    assert(seen[seen.len() - 1] is Waiting);
    if old(rx).looks().len() <= i < final(rx).looks().len() - 1 {
        assert(seen[i - old(rx).looks().len()] == final(rx).looks()[i]);
        assert(shows_more(seen[i - old(rx).looks().len()], keep));
    }
}

proof fn lemma_none_missed(pops: Seq<Option<Single>>, n: int)
    requires
        0 <= n <= pops.len(),
        missed(pops, n) == 0,
    ensures
        forall|k: int| 0 <= k < n ==> (#[trigger] pops[k]) is Some,
    decreases n,
{
    if n > 0 {
        lemma_none_missed(pops, n - 1);
    }
}

/// A device is played what was sent to it, in order. Where its ring runs dry it is
/// silent, and what it missed is counted.
pub proof fn pouring_out(rx: &mut RingRx<Single>, data: &mut Vec<Single>, starved: u64)
    requires
        call_ensures(pour_out, (rx, data), starved),
    ensures
        final(data)@.len() == old(data)@.len(),
        final(rx).misses() == old(rx).misses() + starved,
        final(rx).taken().len() + starved == old(rx).taken().len() + old(data)@.len(),
        starved == 0 ==> final(rx).taken() == old(rx).taken() + final(data)@,
        starved == old(data)@.len() ==> final(data)@ == Seq::new(
            old(data)@.len(),
            |i: int| Single { bits: 0 },
        ),
{
    let pops = choose|pops: Seq<Option<Single>>|
        {
            &&& pops.len() == old(data)@.len()
            &&& final(data)@ == Seq::new(pops.len(), |i: int| heard(pops[i]))
            &&& final(rx).taken() == old(rx).taken() + #[trigger] popped(pops, pops.len() as int)
            &&& starved == missed(pops, pops.len() as int)
        };
    every_pop_gave_or_missed(pops, pops.len() as int);
    if starved == 0 {
        lemma_none_missed(pops, pops.len() as int);
        assert forall|k: int| 0 <= k < pops.len() implies #[trigger] popped(
            pops,
            pops.len() as int,
        )[k] == final(data)@[k] by {
            assert(pops[k] is Some);
        }
        assert(popped(pops, pops.len() as int) =~= final(data)@);
    }
    if starved == pops.len() {
        lemma_all_missed(pops, pops.len() as int);
    }
}

proof fn lemma_all_missed(pops: Seq<Option<Single>>, n: int)
    requires
        0 <= n <= pops.len(),
        missed(pops, n) == n,
    ensures
        forall|k: int| 0 <= k < n ==> (#[trigger] pops[k]) is None,
    decreases n,
{
    if n > 0 {
        every_pop_gave_or_missed(pops, n - 1);
        lemma_all_missed(pops, n - 1);
    }
}

/// Where no card opens, that there is none is said, or every refusal.
pub proof fn what_is_said_where_no_card_opens(search: CardSearch, text: String)
    requires
        call_ensures(CardSearch::verdict, (search,), text),
    ensures
        search.candidates().len() == 0 ==> text@ == "no ALSA cards present"@,
        search.candidates().len() > 0 ==> text@
            == "no ALSA card opened duplex at the engine rate: "@ + refusals(
            search.candidates(),
            search.whys(),
            search.candidates().len() as int,
        ),
{
}

/// The test tone is opened at the front of the frame only, and told as it was asked for.
pub proof fn the_test_tone_is_told_as_it_was_asked_for(
    tone: &mut ToneStream,
    req: OpenInput,
    opened: Result<(), AudioError>,
    status: Option<InputStreamStatus>,
)
    requires
        call_ensures(ToneStream::open_input, (tone, req), opened),
        call_ensures(ToneStream::input_status, (&*final(tone),), status),
    ensures
        opened is Ok <==> req.device is None && req.offset == 0,
        opened is Ok ==> (status matches Some(told) && told.device is None && told.offset == 0
            && told.channels == req.channels && !told.failed && told.underruns == 0
            && told.overruns == 0),
        opened is Err ==> (status is Some <==> old(tone).opened is Some),
{
}

} // verus!
