//! Many devices, each with a stream of its own: which are open, how large
//! their rings are, and what goes through the monitor's.

use vstd::prelude::*;

use crate::audio::assembler::heard;
use crate::audio::assembler::missed;
use crate::audio::assembler::popped;
use crate::audio::backend::AudioError;
use crate::audio::backend::InputDeviceInfo;
use crate::audio::backend::InputStreamStatus;
use crate::audio::backend::OpenInput;
use crate::audio::backend::OutputDeviceInfo;
use crate::engine::ring::RingRx;
use crate::engine::ring::one_by_one;
use crate::engine::ring::Look;
use crate::engine::ring::ENDLESS;
use crate::engine::ring::RingTx;
use crate::single::Single;
use crate::text::copy_optional_text;
use crate::text::same_optional_text;
use crate::text::same_text;
use crate::text::text_of;

verus! {

/// Blocks that a device's ring holds.
pub const INPUT_RING_BLOCKS: usize = 16;

/// Frames that the monitor's ring holds.
pub const OUTPUT_RING_FRAMES: usize = 8192;

/// Frames of silence ahead of the monitor's first block.
pub const OUTPUT_PREFILL_FRAMES: usize = 2048;

/// The backend that opens a stream per device.
#[derive(Debug, Clone, Copy, PartialEq, Eq, Structural)]
pub struct CpalBackend;

impl CpalBackend {
    pub fn name(&self) -> (name: &'static str)
        ensures
            name@ == "cpal"@,
    {
        "cpal"
    }

    /// Whether outputs can be patched.
    pub fn supports_outputs(&self) -> (supported: bool)
        ensures
            supported,
    {
        true
    }
}

/// Samples that a device's ring holds.
pub fn ring_samples(block_size: usize, channels: u16) -> (samples: usize)
    requires
        block_size * channels * INPUT_RING_BLOCKS <= usize::MAX,
    ensures
        samples == block_size * channels * INPUT_RING_BLOCKS,
{
    proof {
        assert(block_size * channels <= block_size * channels * 16) by (nonlinear_arith)
            requires
                block_size >= 0,
                channels >= 0,
        ;
    }
    block_size * (channels as usize) * INPUT_RING_BLOCKS
}

/// One open stream.
#[derive(Debug)]
pub struct OpenStream {
    /// `None` is the system default.
    pub device: Option<String>,
    pub offset: u16,
}

/// What an open stream is.
#[verifier::ext_equal]
pub ghost struct StreamView {
    pub device: Option<Seq<char>>,
    pub offset: u16,
}

impl View for OpenStream {
    type V = StreamView;

    open spec fn view(&self) -> StreamView {
        StreamView { device: text_of(self.device), offset: self.offset }
    }
}

/// The open streams, at most one per device.
#[derive(Debug)]
pub struct OpenStreams {
    streams: Vec<OpenStream>,
}

impl View for OpenStreams {
    type V = Seq<StreamView>;

    closed spec fn view(&self) -> Seq<StreamView> {
        crate::seqs::views(self.streams@)
    }
}

/// The devices of a list of streams.
pub open spec fn stream_devices(streams: Seq<StreamView>) -> Seq<Option<Seq<char>>> {
    Seq::new(streams.len(), |i: int| streams[i].device)
}

impl Default for OpenStreams {
    fn default() -> (streams: OpenStreams)
        ensures
            streams@ == Seq::<StreamView>::empty(),
            streams.wf(),
    {
        let streams = OpenStreams { streams: Vec::new() };
        assert(streams@ =~= Seq::<StreamView>::empty());
        streams
    }
}

impl OpenStreams {
    /// No device has two streams.
    pub open spec fn wf(&self) -> bool {
        stream_devices(self@).no_duplicates()
    }

    fn position(&self, device: &Option<String>) -> (at: Option<usize>)
        ensures
            crate::seqs::index_of(at) == stream_devices(self@).index_of_first(text_of(*device)),
            at matches Some(i) ==> i < self.streams@.len(),
    {
        let ghost devices = stream_devices(self@);
        let mut i: usize = 0;
        while i < self.streams.len()
            invariant
                devices == stream_devices(self@),
                i <= self.streams.len(),
                forall|j: int| 0 <= j < i ==> devices[j] != text_of(*device),
            decreases self.streams.len() - i,
        {
            assert(devices[i as int] == text_of(self.streams@[i as int].device));
            if same_optional_text(&self.streams[i].device, device) {
                proof {
                    crate::seqs::lemma_first(devices, text_of(*device), i as int);
                }
                return Some(i);
            }
            i = i + 1;
        }
        proof {
            crate::seqs::lemma_absent(devices, text_of(*device));
        }
        None
    }

    /// Whether a device has a stream.
    pub fn is_open(&self, device: &Option<String>) -> (open: bool)
        ensures
            open == stream_devices(self@).contains(text_of(*device)),
    {
        proof {
            stream_devices(self@).index_of_first_ensures(text_of(*device));
        }
        self.position(device).is_some()
    }

    /// Notes a new stream. A device that has one keeps it.
    pub fn opened(&mut self, device: &Option<String>, offset: u16) -> (noted: bool)
        requires
            old(self).wf(),
        ensures
            final(self).wf(),
            noted == !stream_devices(old(self)@).contains(text_of(*device)),
            final(self)@ == if noted {
                old(self)@.push(StreamView { device: text_of(*device), offset })
            } else {
                old(self)@
            },
    {
        let ghost before = self@;
        if self.is_open(device) {
            return false;
        }
        self.streams.push(OpenStream { device: copy_optional_text(device), offset });
        proof {
            let added = StreamView { device: text_of(*device), offset };
            assert(self@ =~= before.push(added));
            assert(stream_devices(self@) =~= stream_devices(before).push(added.device));
        }
        true
    }

    /// Forgets a device's stream, and says where it sat. A device without one
    /// is no error.
    pub fn closed(&mut self, device: &Option<String>) -> (offset: Option<u16>)
        requires
            old(self).wf(),
        ensures
            final(self).wf(),
            match stream_devices(old(self)@).index_of_first(text_of(*device)) {
                Some(i) => offset == Some(old(self)@[i].offset) && final(self)@ == old(
                    self,
                )@.remove(i),
                None => offset is None && final(self)@ == old(self)@,
            },
            !stream_devices(final(self)@).contains(text_of(*device)),
    {
        let ghost before = self@;
        proof {
            stream_devices(before).index_of_first_ensures(text_of(*device));
        }
        match self.position(device) {
            Some(i) => {
                let stream: OpenStream = self.streams.remove(i);
                proof {
                    assert(before[i as int] == stream@);
                    assert(self@ =~= before.remove(i as int));
                    let devices = stream_devices(before);
                    assert(stream_devices(self@) =~= devices.remove(i as int));
                    assert forall|j: int|
                        0 <= j < stream_devices(self@).len() implies stream_devices(self@)[j]
                        != text_of(*device) by {
                        if j < i {
                            assert(devices[j] != devices[i as int]);
                        } else {
                            assert(devices[j + 1] != devices[i as int]);
                        }
                    }
                }
                Some(stream.offset)
            },
            None => None,
        }
    }
}

/// Opening a device and closing it again leaves the streams as they were.
pub proof fn closing_undoes_opening(streams: Seq<StreamView>, device: Option<Seq<char>>, offset: u16)
    requires
        !stream_devices(streams).contains(device),
    ensures
        ({
            let after = streams.push(StreamView { device, offset });
            &&& stream_devices(after).index_of_first(device) == Some(streams.len() as int)
            &&& after.remove(streams.len() as int) == streams
        }),
{
    let after = streams.push(StreamView { device, offset });
    let devices = stream_devices(after);
    devices.index_of_first_ensures(device);
    assert(devices[streams.len() as int] == device);
    let i = devices.index_of_first(device)->0;
    if i < streams.len() {
        assert(stream_devices(streams)[i] == device);
    }
    assert(after.remove(streams.len() as int) =~= streams);
}

/// Takes what a ring gives into a buffer, silence where it gives nothing, and
/// counts the misses.
pub fn pour_out(rx: &mut RingRx<Single>, data: &mut Vec<Single>) -> (starved: u64)
    requires
        old(data)@.len() <= u64::MAX,
    ensures
        final(data)@.len() == old(data)@.len(),
        exists|pops: Seq<Option<Single>>|
            {
                &&& pops.len() == old(data)@.len()
                &&& final(data)@ == Seq::new(pops.len(), |i: int| heard(pops[i]))
                &&& final(rx).taken() == old(rx).taken() + #[trigger] popped(
                    pops,
                    pops.len() as int,
                )
                &&& starved == missed(pops, pops.len() as int)
            },
        final(rx).misses() == old(rx).misses() + starved,
        final(rx).looks() == old(rx).looks(),
        final(rx).origin() == old(rx).origin(),
{
    let ghost first = *rx;
    let ghost before = rx.taken();
    let ghost misses = rx.misses();
    let length: usize = data.len();
    let ghost mut pops: Seq<Option<Single>> = Seq::empty();
    let mut starved: u64 = 0;
    let mut i: usize = 0;
    assert(before + popped(pops, 0) =~= before);
    while i < length
        invariant
            i <= length <= u64::MAX,
            data@.len() == length,
            pops.len() == i,
            forall|j: int| 0 <= j < i ==> #[trigger] data@[j] == heard(pops[j]),
            rx.taken() == before + popped(pops, i as int),
            starved == missed(pops, i as int),
            starved <= i,
            rx.misses() == misses + starved,
            rx.looks() == first.looks(),
            rx.origin() == first.origin(),
        decreases length - i,
    {
        let pop: Option<Single> = rx.pop();
        let ghost more = pops.push(pop);
        proof {
            lemma_pops_grow(pops, more, i as int);
            assert(more[i as int] == pop);
        }
        match pop {
            Some(sample) => {
                data[i] = sample;
                assert(rx.taken() =~= before + popped(more, i + 1));
            },
            None => {
                starved = starved + 1;
                data[i] = Single { bits: 0 };
            },
        }
        proof {
            pops = more;
        }
        i = i + 1;
    }
    proof {
        assert(data@ =~= Seq::new(pops.len(), |i: int| heard(pops[i])));
    }
    starved
}

proof fn lemma_pops_grow(a: Seq<Option<Single>>, b: Seq<Option<Single>>, n: int)
    requires
        0 <= n <= a.len() <= b.len(),
        a.is_prefix_of(b),
    ensures
        popped(a, n) == popped(b, n),
        missed(a, n) == missed(b, n),
    decreases n,
{
    if n > 0 {
        lemma_pops_grow(a, b, n - 1);
        assert(a[n - 1] == b[n - 1]);
    }
}

/// Drops the oldest value of a ring in which more than `keep` are waiting; whether
/// it did. The other end may have filled or left the ring meanwhile.
pub fn trim_once(rx: &mut RingRx<Single>, waiting: usize, keep: usize) -> (dropped: bool)
    ensures
        dropped == (waiting > keep),
        old(rx).taken().is_prefix_of(final(rx).taken()),
        final(rx).taken().len() + final(rx).misses() == old(rx).taken().len() + old(rx).misses()
            + if dropped {
            1int
        } else {
            0
        },
        dropped && old(rx).waiting() > 0 ==> final(rx).misses() == old(rx).misses(),
        final(rx).looks() == old(rx).looks(),
        final(rx).origin() == old(rx).origin(),
        !dropped ==> *final(rx) == *old(rx),
{
    if waiting <= keep {
        return false;
    }
    let oldest: Option<Single> = rx.pop();
    true
}

/// Whether a look at a ring showed more than `keep` values waiting.
pub open spec fn shows_more(look: Look, keep: usize) -> bool {
    look matches Look::Waiting(n) && n > keep
}

/// Looks at a ring again and again, and drops the oldest value for each look that
/// shows more than `keep` waiting, until one does not. What the looks show is the
/// other end's doing too.
pub fn trim(rx: &mut RingRx<Single>, keep: usize)
    ensures
        old(rx).taken().is_prefix_of(final(rx).taken()),
        old(rx).looks().is_prefix_of(final(rx).looks()),
        ({
            let seen = final(rx).looks().skip(old(rx).looks().len() as int);
            &&& 0 < seen.len() <= ENDLESS
            &&& forall|i: int| 0 <= i < seen.len() ==> (#[trigger] seen[i]) is Waiting
            &&& forall|i: int| 0 <= i < seen.len() - 1 ==> shows_more(#[trigger] seen[i], keep)
            &&& seen.len() < ENDLESS ==> !shows_more(seen.last(), keep)
            &&& final(rx).taken().len() == old(rx).taken().len() + seen.len() - if shows_more(
                seen.last(),
                keep,
            ) {
                0int
            } else {
                1
            }
        }),
        final(rx).misses() == old(rx).misses(),
        final(rx).origin() == old(rx).origin(),
{
    let ghost history = rx.taken();
    let ghost looks = rx.looks();
    let ghost mut seen: Seq<Look> = Seq::empty();
    let mut left: u64 = ENDLESS;
    assert(looks + seen =~= looks);
    while left > 0
        invariant
            looks == old(rx).looks(),
            history == old(rx).taken(),
            rx.misses() == old(rx).misses(),
            rx.origin() == old(rx).origin(),
            history.is_prefix_of(rx.taken()),
            rx.looks() == looks + seen,
            seen.len() + left <= ENDLESS,
            seen.len() == 0 ==> left == ENDLESS,
            forall|i: int| 0 <= i < seen.len() ==> (#[trigger] seen[i]) is Waiting,
            forall|i: int| 0 <= i < seen.len() - 1 ==> shows_more(#[trigger] seen[i], keep),
            left > 0 && seen.len() > 0 ==> shows_more(seen.last(), keep),
            seen.len() + left < ENDLESS ==> seen.len() > 0 && !shows_more(seen.last(), keep),
            rx.taken().len() == history.len() + seen.len() - if seen.len() > 0
                && !shows_more(seen.last(), keep) {
                1int
            } else {
                0
            },
        decreases left,
    {
        let ghost earlier = seen;
        let waiting: usize = rx.slots();
        proof {
            seen = seen.push(Look::Waiting(waiting));
            assert(rx.looks() =~= looks + seen);
            assert(earlier == seen.drop_last());
        }
        left = if trim_once(rx, waiting, keep) {
            left - 1
        } else {
            0
        };
    }
    assert(rx.looks().skip(looks.len() as int) =~= seen);
}

/// Sends so many frames of silence ahead, as far as they fit.
pub fn prefill(tx: &mut RingTx<Single>, frames: usize)
    requires
        frames * 2 <= usize::MAX,
    ensures
        old(tx).sent().is_prefix_of(final(tx).sent()),
        final(tx).sent().len() <= old(tx).sent().len() + frames * 2,
        forall|i: int|
            old(tx).sent().len() <= i < final(tx).sent().len() ==> #[trigger] final(tx).sent()[i]
                == (Single { bits: 0 }),
        final(tx).offered() == old(tx).offered() + one_by_one(
            Seq::new((frames * 2) as nat, |i: int| Single { bits: 0 }),
        ),
        old(tx).room() >= frames * 2 ==> final(tx).sent().len() == old(tx).sent().len() + frames
            * 2,
        final(tx).origin() == old(tx).origin(),
{
    let ghost first = *tx;
    let ghost history = tx.sent();
    let ghost offered = tx.offered();
    let ghost silence = Seq::new((frames * 2) as nat, |i: int| Single { bits: 0 });
    assert(offered + one_by_one(silence.take(0)) =~= offered);
    let samples: usize = frames * 2;
    let mut i: usize = 0;
    while i < samples
        invariant
            i <= samples == frames * 2,
            history.is_prefix_of(tx.sent()),
            tx.sent().len() <= history.len() + i,
            tx.origin() == first.origin(),
            first.room() >= samples ==> tx.sent().len() == history.len() + i && tx.room()
                == first.room() - i,
            silence == Seq::new((frames * 2) as nat, |i: int| Single { bits: 0 }),
            tx.offered() == offered + one_by_one(silence.take(i as int)),
            forall|j: int|
                history.len() <= j < tx.sent().len() ==> #[trigger] tx.sent()[j] == (Single {
                    bits: 0,
                }),
        decreases samples - i,
    {
        let pushed: Result<(), Single> = tx.push(Single { bits: 0 });
        assert(tx.offered() =~= offered + one_by_one(silence.take(i + 1)));
        i = i + 1;
    }
    assert(silence.take(i as int) =~= silence);
}

/// The stream of a backend without devices: a test tone, on the first channel
/// of the frame.
#[derive(Debug)]
pub struct ToneStream {
    pub opened: Option<OpenInput>,
}

impl Default for ToneStream {
    fn default() -> (stream: ToneStream)
        ensures
            stream.opened is None,
    {
        ToneStream { opened: None }
    }
}

impl ToneStream {
    /// Opens the tone. It is the only input, and lies at offset 0.
    pub fn open_input(&mut self, req: OpenInput) -> (opened: Result<(), AudioError>)
        ensures
            opened is Ok <==> req.device is None && req.offset == 0,
            opened is Ok ==> final(self).opened == Some(req),
            opened is Err ==> final(self).opened == old(self).opened,
            opened matches Err(error) ==> (error matches AudioError::Device(why) && why@
                == if req.device is Some {
                "the fake backend has only the test tone"@
            } else {
                "the fake tone lives at offset 0"@
            }),
    {
        if req.device.is_some() {
            return Err(
                AudioError::Device("the fake backend has only the test tone".to_owned()),
            );
        }
        if req.offset != 0 {
            return Err(AudioError::Device("the fake tone lives at offset 0".to_owned()));
        }
        self.opened = Some(req);
        Ok(())
    }

    /// Closes the tone. Closing anything else changes nothing.
    pub fn close_input(&mut self, device: Option<&str>)
        ensures
            final(self).opened == if device is None {
                None::<OpenInput>
            } else {
                old(self).opened
            },
    {
        if device.is_none() {
            self.opened = None;
        }
    }

    /// A look at the tone's stream, if it is open.
    pub fn input_status(&self) -> (status: Option<InputStreamStatus>)
        ensures
            match (status, self.opened) {
                (Some(status), Some(req)) => {
                    &&& status.device is None
                    &&& status.offset == req.offset
                    &&& status.channels == req.channels
                    &&& !status.failed
                    &&& status.underruns == 0
                    &&& status.overruns == 0
                },
                (None, None) => true,
                _ => false,
            },
    {
        match &self.opened {
            Some(req) => Some(
                InputStreamStatus {
                    device: None,
                    offset: req.offset,
                    channels: req.channels,
                    failed: false,
                    underruns: 0,
                    overruns: 0,
                },
            ),
            None => None,
        }
    }
}

/// The test tone as an input device.
pub fn tone_device() -> (device: InputDeviceInfo)
    ensures
        device.name@ == "Test tone (fake backend)"@,
        device.description is None,
        device.channels == 1,
        device.active,
        !device.pulse,
        device.card is None,
        device.channel_map is None,
        !device.muted,
        device.volume_percent is None,
{
    InputDeviceInfo {
        name: "Test tone (fake backend)".to_owned(),
        description: None,
        channels: 1,
        active: true,
        pulse: false,
        card: None,
        channel_map: None,
        muted: false,
        volume_percent: None,
    }
}

/// Whether a device is the default one.
pub open spec fn is_default(name: Seq<char>, default: Option<String>) -> bool {
    default matches Some(chosen) && chosen@ == name
}

/// An input as the host lists it, with nothing known of it but its width.
pub fn raw_input(name: String, channels: u16, default: &Option<String>) -> (device: InputDeviceInfo)
    ensures
        device.name == name,
        device.description is None,
        device.channels == channels,
        device.active == is_default(name@, *default),
        !device.pulse,
        device.card is None,
        device.channel_map is None,
        !device.muted,
        device.volume_percent is None,
{
    let active: bool = match default {
        Some(chosen) => same_text(chosen.as_str(), name.as_str()),
        None => false,
    };
    InputDeviceInfo {
        name,
        description: None,
        channels,
        active,
        pulse: false,
        card: None,
        channel_map: None,
        muted: false,
        volume_percent: None,
    }
}

/// An output as the host lists it. The monitor has a stream of its own, so that
/// all channels are free.
pub fn raw_output(name: String, channels: u16, default: &Option<String>) -> (device:
    OutputDeviceInfo)
    ensures
        device.name == name,
        device.description is None,
        device.channels == channels,
        device.active == is_default(name@, *default),
        !device.pulse,
        device.card is None,
        device.channel_map is None,
        !device.muted,
        device.volume_percent is None,
        device.monitor_channels == 0,
{
    let active: bool = match default {
        Some(chosen) => same_text(chosen.as_str(), name.as_str()),
        None => false,
    };
    OutputDeviceInfo {
        name,
        description: None,
        channels,
        active,
        pulse: false,
        card: None,
        channel_map: None,
        muted: false,
        volume_percent: None,
        monitor_channels: 0,
    }
}

} // verus!
