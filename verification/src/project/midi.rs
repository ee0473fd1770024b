//! The notes of a take as a Standard MIDI File.
//!
//! Time runs at a fixed 960 ticks a second, written as 480 ticks a quarter at
//! 120 beats a minute. The console has no musical clock, so this is a change of
//! unit and nothing more.

use vstd::prelude::*;
use vstd::utf8::encode_utf8;

use crate::bytes::ascii;
use crate::bytes::be16;
use crate::bytes::be32;
use crate::bytes::push_ascii;
use crate::bytes::push_be16;
use crate::bytes::push_be32;
use crate::bytes::push_bytes;
use crate::console::instrument::CapturedMidi;
use crate::project::headers::a_written_file_has_no_odd_header;
use crate::project::headers::has_odd_header;

verus! {

/// Ticks a second in a written file.
pub const TICKS_PER_SECOND: u64 = 960;

/// Ticks a quarter in a written file.
pub const TICKS_PER_QUARTER: u16 = 480;

/// Microseconds a quarter in a written file.
pub const MICROS_PER_QUARTER: u32 = 500_000;

/// What 64 bits keep of a number.
pub open spec fn wrapped(n: int) -> int {
    n % 0x1_0000_0000_0000_0000
}

/// A rate that can be divided by.
pub open spec fn divisor(n: int) -> int {
    if n > 0 {
        n
    } else {
        1
    }
}

/// The tick at which a sample falls.
pub open spec fn tick_at(sample: int, sample_rate: int) -> int {
    wrapped(sample * TICKS_PER_SECOND / divisor(sample_rate))
}

/// The sample at which a tick falls.
pub open spec fn sample_at(tick: int, micros: int, ticks: int, sample_rate: int) -> int {
    wrapped(tick * micros * sample_rate / (divisor(ticks) * 1_000_000))
}

/// The low 64 bits of a number.
pub fn low_bits(n: u128) -> (low: u64)
    ensures
        low == wrapped(n as int),
{
    (n % 0x1_0000_0000_0000_0000) as u64
}

/// The tick at which a sample falls, counted from the start of the take and not
/// from the event before: rounded distances would add up to a drift.
pub fn tick_of(sample: u64, sample_rate: u32) -> (tick: u64)
    ensures
        tick == tick_at(sample as int, sample_rate as int),
{
    let rate: u128 = if sample_rate > 0 {
        sample_rate as u128
    } else {
        1
    };
    low_bits(sample as u128 * TICKS_PER_SECOND as u128 / rate)
}

/// The sample at which a tick falls, at a tempo and a division.
pub fn sample_of(
    tick: u64,
    micros_per_quarter: u32,
    ticks_per_quarter: u16,
    sample_rate: u32,
) -> (sample: u64)
    ensures
        sample == sample_at(
            tick as int,
            micros_per_quarter as int,
            ticks_per_quarter as int,
            sample_rate as int,
        ),
{
    let ticks: u128 = if ticks_per_quarter > 0 {
        ticks_per_quarter as u128
    } else {
        1
    };
    let micros: u128 = micros_per_quarter as u128;
    let rate: u128 = sample_rate as u128;
    let from: u128 = tick as u128;
    assert(from * micros <= 0xFFFF_FFFF_FFFF_FFFF * 0xFFFF_FFFF) by (nonlinear_arith)
        requires
            from <= 0xFFFF_FFFF_FFFF_FFFF,
            micros <= 0xFFFF_FFFF,
    ;
    let elapsed: u128 = from * micros;
    assert(elapsed * rate <= 0xFFFF_FFFF_FFFF_FFFF * 0xFFFF_FFFF * 0xFFFF_FFFF) by (nonlinear_arith)
        requires
            elapsed <= 0xFFFF_FFFF_FFFF_FFFF * 0xFFFF_FFFF,
            rate <= 0xFFFF_FFFF,
    ;
    low_bits(elapsed * rate / (ticks * 1_000_000))
}

/// Every tick falls within one tick, and one sample, behind the sample that it
/// was taken from, and never in front of it, as long as ticks fit into 64 bits.
pub proof fn ticks_map_back(sample: u64, sample_rate: u32)
    requires
        sample_rate > 0,
        sample * TICKS_PER_SECOND / sample_rate as int <= u64::MAX,
    ensures
        ({
            let back = sample_at(
                tick_at(sample as int, sample_rate as int),
                MICROS_PER_QUARTER as int,
                TICKS_PER_QUARTER as int,
                sample_rate as int,
            );
            back <= sample && sample - back <= sample_rate as int / TICKS_PER_SECOND as int + 1
        }),
{
    let rate = sample_rate as int;
    let all = sample * 960;
    let tick = all / rate;
    assert(tick * rate <= all && all < tick * rate + rate) by (nonlinear_arith)
        requires
            rate > 0,
            tick == all / rate,
    ;
    assert(tick >= 0) by (nonlinear_arith)
        requires
            rate > 0,
            tick == all / rate,
            all >= 0,
    ;
    assert(tick_at(sample as int, rate) == tick);
    assert(tick * 500_000 * rate == (tick * rate) * 500_000) by (nonlinear_arith);
    let whole = (tick * rate) * 500_000 / 480_000_000;
    assert(whole == (tick * rate) / 960);
    assert(tick * rate >= 0) by (nonlinear_arith)
        requires
            tick >= 0,
            rate > 0,
    ;
}

/// A whole second is exactly 960 ticks, however long the take runs.
pub proof fn whole_seconds_never_drift(seconds: nat, sample_rate: u32)
    requires
        sample_rate > 0,
        seconds * TICKS_PER_SECOND <= u64::MAX,
    ensures
        tick_at(seconds * sample_rate, sample_rate as int) == seconds * TICKS_PER_SECOND,
{
    let rate = sample_rate as int;
    assert((seconds * rate) * 960 / rate == seconds * 960) by (nonlinear_arith)
        requires
            rate > 0,
    ;
}

/// Later samples never fall on earlier ticks, as long as ticks fit into 64 bits.
pub proof fn ticks_keep_the_order(a: int, b: int, sample_rate: int)
    requires
        0 <= a <= b,
        b * TICKS_PER_SECOND / divisor(sample_rate) <= u64::MAX,
    ensures
        tick_at(a, sample_rate) <= tick_at(b, sample_rate),
{
    let rate = divisor(sample_rate);
    let low = a * 960;
    let high = b * 960;
    assert(0 <= low / rate <= high / rate) by (nonlinear_arith)
        requires
            0 <= low <= high,
            rate > 0,
    ;
}

/// The bytes in front of the last one of a variable-length quantity.
pub open spec fn vlq_lead(value: nat) -> Seq<u8>
    decreases value,
{
    if value == 0 {
        Seq::empty()
    } else {
        vlq_lead(value / 128).push((value % 128 + 128) as u8)
    }
}

/// A variable-length quantity: seven bits a byte, the high bit set on every
/// byte but the last.
pub open spec fn vlq(value: nat) -> Seq<u8> {
    vlq_lead(value / 128).push((value % 128) as u8)
}

/// What the low seven bits of each byte write together.
pub open spec fn sevens(bytes: Seq<u8>) -> nat
    decreases bytes.len(),
{
    if bytes.len() == 0 {
        0
    } else {
        sevens(bytes.drop_last()) * 128 + bytes.last() as nat % 128
    }
}

proof fn lemma_lead(value: nat)
    ensures
        sevens(vlq_lead(value)) == value,
        forall|i: int| 0 <= i < vlq_lead(value).len() ==> #[trigger] vlq_lead(value)[i] >= 128,
    decreases value,
{
    if value > 0 {
        lemma_lead(value / 128);
        assert(vlq_lead(value).drop_last() =~= vlq_lead(value / 128));
    }
}

/// A variable-length quantity says where it ends, and what it holds.
pub proof fn a_quantity_reads_back(value: nat)
    ensures
        sevens(vlq(value)) == value,
        vlq(value).len() > 0,
        vlq(value).last() < 128,
        forall|i: int| 0 <= i < vlq(value).len() - 1 ==> #[trigger] vlq(value)[i] >= 128,
{
    lemma_lead(value / 128);
    assert(vlq(value).drop_last() =~= vlq_lead(value / 128));
}

/// The first value that five bytes of seven bits do not hold.
pub const VLQ_LIMIT: u64 = 0x8_0000_0000;

fn write_lead(out: &mut Vec<u8>, value: u64)
    ensures
        final(out)@ == old(out)@ + vlq_lead(value as nat),
    decreases value,
{
    if value > 0 {
        write_lead(out, value / 128);
        out.push((value % 128 + 128) as u8);
    }
    assert(out@ =~= old(out)@ + vlq_lead(value as nat));
}

/// Writes a variable-length quantity.
pub fn write_vlq(out: &mut Vec<u8>, value: u64)
    requires
        value < VLQ_LIMIT,
    ensures
        final(out)@ == old(out)@ + vlq(value as nat),
{
    write_lead(out, value / 128);
    out.push((value % 128) as u8);
    assert(out@ =~= old(out)@ + vlq(value as nat));
}

/// A named piece of a file: the name, the length in 32 bits, the contents.
pub open spec fn chunk_bytes(id: Seq<char>, payload: Seq<u8>) -> Seq<u8> {
    ascii(id) + be32((payload.len() % 0x1_0000_0000) as u32) + payload
}

/// A named piece of a file.
pub fn chunk(id: &str, payload: &Vec<u8>) -> (out: Vec<u8>)
    ensures
        out@ == chunk_bytes(id@, payload@),
{
    let mut out: Vec<u8> = Vec::new();
    push_ascii(&mut out, id);
    let length: u64 = payload.len() as u64;
    push_be32(&mut out, (length % 0x1_0000_0000) as u32);
    push_bytes(&mut out, payload);
    assert(out@ =~= chunk_bytes(id@, payload@));
    out
}

/// The latest tick among the first `n` events.
pub open spec fn reached(events: Seq<CapturedMidi>, sample_rate: int, n: int) -> int
    decreases n,
{
    if n <= 0 {
        0
    } else {
        let earlier = reached(events, sample_rate, n - 1);
        let tick = tick_at(events[n - 1].sample as int, sample_rate);
        if tick > earlier {
            tick
        } else {
            earlier
        }
    }
}

/// The ticks from the latest event before to event `i`; none where the clock
/// went back.
pub open spec fn gap(events: Seq<CapturedMidi>, sample_rate: int, i: int) -> int {
    let tick = tick_at(events[i].sample as int, sample_rate);
    let earlier = reached(events, sample_rate, i);
    if tick > earlier {
        tick - earlier
    } else {
        0
    }
}

/// Whether a message of this status carries one data byte and not two.
pub open spec fn is_short(status: u8) -> bool {
    status as int / 16 == 0xC || status as int / 16 == 0xD
}

/// A message on the wire, on the first channel whatever channel it came in on.
pub open spec fn message_bytes(event: CapturedMidi) -> Seq<u8> {
    let head = seq![(event.status as int / 16 * 16) as u8, (event.data1 % 128) as u8];
    if is_short(event.status) {
        head
    } else {
        head.push((event.data2 % 128) as u8)
    }
}

/// The first `n` events of a track, each behind its distance from the one
/// before.
pub open spec fn event_bytes(events: Seq<CapturedMidi>, sample_rate: int, n: int) -> Seq<u8>
    decreases n,
{
    if n <= 0 {
        Seq::empty()
    } else {
        event_bytes(events, sample_rate, n - 1) + vlq(gap(events, sample_rate, n - 1) as nat)
            + message_bytes(events[n - 1])
    }
}

/// The tempo, then the track's name.
pub open spec fn track_head(name: Seq<char>) -> Seq<u8> {
    seq![0u8, 0xFF, 0x51, 0x03, 0x07, 0xA1, 0x20, 0, 0xFF, 0x03] + vlq(encode_utf8(name).len())
        + encode_utf8(name)
}

/// What ends a track.
pub open spec fn track_end() -> Seq<u8> {
    seq![0u8, 0xFF, 0x2F, 0]
}

/// One track: its head, its events, its end.
pub open spec fn track_bytes(name: Seq<char>, sample_rate: int, events: Seq<CapturedMidi>) -> Seq<
    u8,
> {
    track_head(name) + event_bytes(events, sample_rate, events.len() as int) + track_end()
}

/// A file of one track, at 480 ticks a quarter.
pub open spec fn smf(name: Seq<char>, sample_rate: int, events: Seq<CapturedMidi>) -> Seq<u8> {
    chunk_bytes("MThd"@, be16(0) + be16(1) + be16(TICKS_PER_QUARTER)) + chunk_bytes(
        "MTrk"@,
        track_bytes(name, sample_rate, events),
    )
}

/// Whether every distance between events can be written.
pub open spec fn gaps_fit(sample_rate: int, events: Seq<CapturedMidi>) -> bool {
    forall|i: int|
        0 <= i < events.len() ==> #[trigger] gap(events, sample_rate, i) < VLQ_LIMIT
}

/// Whether every distance between events can be written.
pub fn can_write(sample_rate: u32, events: &[CapturedMidi]) -> (fit: bool)
    ensures
        fit == gaps_fit(sample_rate as int, events@),
{
    let mut last_tick: u64 = 0;
    let mut i: usize = 0;
    while i < events.len()
        invariant
            i <= events@.len(),
            last_tick == reached(events@, sample_rate as int, i as int),
            forall|k: int|
                0 <= k < i ==> #[trigger] gap(events@, sample_rate as int, k) < VLQ_LIMIT,
        decreases events.len() - i,
    {
        let tick: u64 = tick_of(events[i].sample, sample_rate);
        assert(gap(events@, sample_rate as int, i as int) == if tick > last_tick {
            tick - last_tick
        } else {
            0
        });
        if tick > last_tick {
            if tick - last_tick >= VLQ_LIMIT {
                return false;
            }
            last_tick = tick;
        }
        i = i + 1;
    }
    true
}

fn write_message(out: &mut Vec<u8>, event: &CapturedMidi)
    ensures
        final(out)@ == old(out)@ + message_bytes(*event),
{
    let kind: u8 = event.status / 16;
    out.push(kind * 16);
    out.push(event.data1 % 128);
    if kind != 0xC && kind != 0xD {
        out.push(event.data2 % 128);
    }
    assert(out@ =~= old(out)@ + message_bytes(*event));
}

fn write_head(out: &mut Vec<u8>, name: &str)
    requires
        encode_utf8(name@).len() < VLQ_LIMIT,
    ensures
        final(out)@ == old(out)@ + track_head(name@),
{
    let ghost before = out@;
    write_vlq(out, 0);
    out.push(0xFF);
    out.push(0x51);
    out.push(0x03);
    out.push(0x07);
    out.push(0xA1);
    out.push(0x20);
    write_vlq(out, 0);
    out.push(0xFF);
    out.push(0x03);
    assert(vlq(0) =~= seq![0u8]) by {
        assert(vlq_lead(0) =~= Seq::<u8>::empty());
    }
    let text: &[u8] = name.as_bytes();
    write_vlq(out, text.len() as u64);
    let ghost mark = out@;
    let mut i: usize = 0;
    assert(mark + text@.take(0) =~= mark);
    while i < text.len()
        invariant
            i <= text@.len(),
            out@ == mark + text@.take(i as int),
        decreases text.len() - i,
    {
        out.push(text[i]);
        i = i + 1;
        assert(out@ =~= mark + text@.take(i as int));
    }
    assert(text@.take(text@.len() as int) =~= text@);
    assert(out@ =~= before + track_head(name@));
}

/// A file of one track from events in the order of the take. The whole track is
/// built before its length is written: a track cut short is not a shorter file
/// but a broken one.
pub fn build_smf(name: &str, sample_rate: u32, events: &[CapturedMidi]) -> (out: Vec<u8>)
    requires
        gaps_fit(sample_rate as int, events@),
        encode_utf8(name@).len() < VLQ_LIMIT,
    ensures
        out@ == smf(name@, sample_rate as int, events@),
        track_bytes(name@, sample_rate as int, events@).len() < 0x1_0000_0000 ==> !has_odd_header(
            out@,
        ),
{
    proof {
        if track_bytes(name@, sample_rate as int, events@).len() < 0x1_0000_0000 {
            a_written_file_has_no_odd_header(name@, sample_rate as int, events@);
        }
    }
    let mut header: Vec<u8> = Vec::new();
    push_be16(&mut header, 0);
    push_be16(&mut header, 1);
    push_be16(&mut header, TICKS_PER_QUARTER);
    assert(header@ =~= be16(0) + be16(1) + be16(TICKS_PER_QUARTER));
    let mut track: Vec<u8> = Vec::new();
    write_head(&mut track, name);
    let ghost head = track_head(name@);
    let ghost rate = sample_rate as int;
    assert(track@ =~= head + event_bytes(events@, rate, 0));
    let mut last_tick: u64 = 0;
    let mut i: usize = 0;
    while i < events.len()
        invariant
            rate == sample_rate as int,
            i <= events@.len(),
            gaps_fit(rate, events@),
            last_tick == reached(events@, rate, i as int),
            track@ == head + event_bytes(events@, rate, i as int),
        decreases events.len() - i,
    {
        let tick: u64 = tick_of(events[i].sample, sample_rate);
        assert(gap(events@, rate, i as int) < VLQ_LIMIT);
        write_vlq(&mut track, tick.saturating_sub(last_tick));
        if tick > last_tick {
            last_tick = tick;
        }
        write_message(&mut track, &events[i]);
        i = i + 1;
        assert(track@ =~= head + event_bytes(events@, rate, i as int));
    }
    write_vlq(&mut track, 0);
    track.push(0xFF);
    track.push(0x2F);
    track.push(0x00);
    assert(vlq(0) =~= seq![0u8]) by {
        assert(vlq_lead(0) =~= Seq::<u8>::empty());
    }
    assert(track@ =~= track_bytes(name@, rate, events@));
    let mut out: Vec<u8> = chunk("MThd", &header);
    let body: Vec<u8> = chunk("MTrk", &track);
    push_bytes(&mut out, &body);
    out
}

} // verus!
