//! What the bytes of a file say.

use vstd::arithmetic::div_mod::lemma_fundamental_div_mod;
use vstd::arithmetic::div_mod::lemma_fundamental_div_mod_converse;
use vstd::arithmetic::div_mod::lemma_mod_multiples_basic;
use vstd::arithmetic::div_mod::lemma_small_mod;
use vstd::prelude::*;
use vstd::utf8::encode_utf8;

use crate::bytes::ascii;
use crate::bytes::be16;
use crate::bytes::be24;
use crate::bytes::be32;
use crate::bytes::be64;
use crate::bytes::le16;
use crate::bytes::le32;
use crate::bytes::zeros;
use crate::console::instrument::CapturedMidi;
use crate::project::flac::can_encode;
use crate::project::flac::in_depth;
use crate::project::flac::info_bytes;
use crate::project::flac::no_totals;
use crate::project::flac::packed;
use crate::project::flac::sizes_after;
use crate::project::flac::whole;
use crate::project::flac::Totals;
use crate::project::headers::big;
use crate::project::headers::is_usual;
use crate::project::headers::little;
use crate::project::headers::DATA_CHUNK;
use crate::project::headers::HEADER_CHUNK;
use crate::project::headers::RIFF_CHUNK;
use crate::project::headers::RMID_FORM;
use crate::project::headers::TRACK_CHUNK;
use crate::project::midi::chunk_bytes;
use crate::project::midi::event_bytes;
use crate::project::midi::gap;
use crate::project::midi::message_bytes;
use crate::project::midi::reached;
use crate::project::midi::sample_at;
use crate::project::midi::smf;
use crate::project::midi::tick_at;
use crate::project::midi::track_bytes;
use crate::project::midi::track_end;
use crate::project::midi::track_head;
use crate::project::midi::vlq;
use crate::project::peaks::closed;
use crate::project::peaks::extent;
use crate::project::peaks::header_bytes;
use crate::project::peaks::higher;
use crate::project::peaks::lower;
use crate::project::peaks::pair_bytes;
use crate::project::peaks::sidecar_of;
use crate::project::peaks::signed_bytes;
use crate::project::peaks::signed_of;
use crate::project::peaks::tail;
use crate::project::sidecar::all_heard;
use crate::project::sidecar::encoded;
use crate::project::sidecar::heard;
use crate::project::sidecar::tempo_after;
use crate::project::sidecar::tick_after;
use crate::project::sidecar::written_message;
use crate::project::sidecar::ChannelMessage;
use crate::project::sidecar::StepView;
use crate::single::Single;
use crate::text::before;
use crate::text::digits_value;
use crate::text::number_of;
use crate::text::numeral;

verus! {

/// A number is written in bytes of eight bits, the lowest first or the highest first,
/// and nothing of it is lost.
pub proof fn bytes_say_their_number(a: u16, b: u32, c: u64)
    ensures
        le16(a).len() == 2 && le16(a)[0] + le16(a)[1] * 256 == a,
        be16(a).len() == 2 && be16(a)[0] * 256 + be16(a)[1] == a,
        le32(b).len() == 4 && le32(b)[0] + le32(b)[1] * 256 + le32(b)[2] * 65536 + le32(b)[3]
            * 16777216 == b,
        be32(b).len() == 4 && be32(b)[0] * 16777216 + be32(b)[1] * 65536 + be32(b)[2] * 256
            + be32(b)[3] == b,
        b < 16777216 ==> be24(b)[0] * 65536 + be24(b)[1] * 256 + be24(b)[2] == b,
        be24(b).len() == 3,
        be64(c).len() == 8 && be64(c)[0] * 0x100_0000_0000_0000 + be64(c)[1] * 0x1_0000_0000_0000
            + be64(c)[2] * 0x100_0000_0000 + be64(c)[3] * 0x1_0000_0000 + be64(c)[4] * 16777216
            + be64(c)[5] * 65536 + be64(c)[6] * 256 + be64(c)[7] == c,
{
    let high = (c as int / 0x1_0000_0000) as u32;
    let low = (c as int % 0x1_0000_0000) as u32;
    assert(high * 0x1_0000_0000 + low == c);
    assert(be32(high)[0] * 16777216 + be32(high)[1] * 65536 + be32(high)[2] * 256 + be32(high)[3]
        == high);
    assert(be32(low)[0] * 16777216 + be32(low)[1] * 65536 + be32(low)[2] * 256 + be32(low)[3]
        == low);
    assert forall|i: int| 0 <= i < 4 implies be64(c)[i] == be32(high)[i] && be64(c)[i + 4]
        == be32(low)[i] by {}
    assert(be64(c)[0] == be32(high)[0] && be64(c)[1] == be32(high)[1] && be64(c)[2]
        == be32(high)[2] && be64(c)[3] == be32(high)[3]);
    assert(be64(c)[4] == be32(low)[0] && be64(c)[5] == be32(low)[1] && be64(c)[6]
        == be32(low)[2] && be64(c)[7] == be32(low)[3]);
}

/// A number is read digit by digit, each ten times the rest and itself. A plus may
/// lead it. Nothing, a plus alone, and anything else in it make it no number.
pub proof fn a_number_is_read_digit_by_digit(s: Seq<char>, c: char)
    requires
        s.len() > 0,
        s[0] != '+' || s.len() > 1,
    ensures
        number_of(Seq::empty()) is None,
        number_of(seq!['+']) is None,
        '0' <= c <= '9' ==> number_of(seq![c]) == Some((c as int - '0' as int) as nat),
        !('0' <= c <= '9') ==> number_of(s.push(c)) is None,
        '0' <= c <= '9' ==> number_of(s.push(c)) == (match number_of(s) {
            Some(n) => Some((n * 10 + (c as int - '0' as int)) as nat),
            None => None,
        }),
        s[0] != '+' ==> number_of(seq!['+'] + s) == number_of(s),
{
    reveal_with_fuel(digits_value, 2);
    let more = s.push(c);
    assert(seq!['+'].skip(1) =~= Seq::<char>::empty());
    assert(seq![c].drop_last() =~= Seq::<char>::empty());
    assert(seq![c].last() == c);
    if s[0] == '+' {
        assert(more.skip(1) =~= s.skip(1).push(c));
        assert(s.skip(1).push(c).drop_last() =~= s.skip(1));
    } else {
        assert(more.drop_last() =~= s);
        assert((seq!['+'] + s).skip(1) =~= s);
    }
}

/// A numeral is the digits of its number, the last one standing for the rest by ten.
pub proof fn a_numeral_is_its_digits(n: nat)
    ensures
        n < 10 ==> numeral(n) == seq![(48 + n) as char],
        n >= 10 ==> numeral(n) == numeral(n / 10).push((48 + n % 10) as char),
{
}

/// Of two texts that begin alike, the one that goes on with the lower character, and
/// the one that ends there, comes before the other.
pub proof fn texts_go_by_their_first_difference(
    start: Seq<char>,
    a: char,
    b: char,
    x: Seq<char>,
    y: Seq<char>,
)
    requires
        a < b,
    ensures
        before(start + seq![a] + x, start + seq![b] + y),
        !before(start + seq![b] + y, start + seq![a] + x),
        before(start, start + seq![a] + x),
        !before(start + seq![a] + x, start),
    decreases start.len(),
{
    let p = start + seq![a] + x;
    let q = start + seq![b] + y;
    if start.len() == 0 {
        assert(p[0] == a && q[0] == b);
    } else {
        let rest = start.skip(1);
        texts_go_by_their_first_difference(rest, a, b, x, y);
        assert(p.skip(1) =~= rest + seq![a] + x);
        assert(q.skip(1) =~= rest + seq![b] + y);
        assert(p[0] == start[0] && q[0] == start[0]);
    }
}

/// A message is told by the upper half of its status. Programs and channel pressure
/// have one byte of data, the others two, each of seven bits.
pub proof fn a_message_is_written_as_it_was_captured(event: CapturedMidi)
    ensures
        ({
            let bytes = message_bytes(event);
            let kind = event.status as int / 16;
            &&& bytes[0] == kind * 16
            &&& bytes[1] == event.data1 % 128
            &&& kind == 12 || kind == 13 ==> bytes.len() == 2
            &&& kind != 12 && kind != 13 ==> bytes.len() == 3 && bytes[2] == event.data2 % 128
        }),
{
}

/// What is read of a message that was written is what was captured: the kind, and the
/// data of seven bits each, with 0 where the kind has one byte only.
pub proof fn a_message_reads_back(event: CapturedMidi)
    requires
        0x80 <= event.status < 0xF0,
    ensures
        ({
            let back = encoded(written_message(event));
            let kind = event.status as int / 16;
            &&& back.0 == kind * 16
            &&& back.1 == event.data1 % 128
            &&& back.2 == if kind == 12 || kind == 13 {
                0
            } else {
                event.data2 as int % 128
            }
        }),
{
    let a = (event.data1 % 128) as u8;
    let b = (event.data2 % 128) as u8;
    assert((b * 128 + a) % 128 == a && (b * 128 + a) / 128 == b);
}

/// Each message has its status, and its data in order. A bend has its lower seven bits
/// first.
pub proof fn what_each_message_encodes(a: u8, b: u8, bend: u16)
    ensures
        encoded(ChannelMessage::NoteOff(a, b)) == (0x80u8, a, b),
        encoded(ChannelMessage::NoteOn(a, b)) == (0x90u8, a, b),
        encoded(ChannelMessage::Aftertouch(a, b)) == (0xA0u8, a, b),
        encoded(ChannelMessage::Controller(a, b)) == (0xB0u8, a, b),
        encoded(ChannelMessage::ProgramChange(a)) == (0xC0u8, a, 0u8),
        encoded(ChannelMessage::ChannelAftertouch(a)) == (0xD0u8, a, 0u8),
        bend < 0x4000 ==> ({
            let (status, low, high) = encoded(ChannelMessage::PitchBend(bend));
            status == 0xE0 && low < 128 && low + high * 128 == bend
        }),
{
}

/// A note stands at the tick of its sample, 960 to the second, and is written by its
/// distance from the latest one before it.
pub proof fn a_note_is_written_by_its_distance(
    events: Seq<CapturedMidi>,
    sample_rate: int,
    i: int,
)
    requires
        0 <= i < events.len(),
        sample_rate > 0,
    ensures
        events[i].sample * 960 / sample_rate < 0x1_0000_0000_0000_0000 ==> tick_at(
            events[i].sample as int,
            sample_rate,
        ) == events[i].sample * 960 / sample_rate,
        ({
            let tick = tick_at(events[i].sample as int, sample_rate);
            let latest = reached(events, sample_rate, i);
            &&& tick >= latest ==> gap(events, sample_rate, i) == tick - latest
            &&& tick <= latest ==> gap(events, sample_rate, i) == 0
            &&& reached(events, sample_rate, i + 1) == latest + gap(events, sample_rate, i)
        }),
        reached(events, sample_rate, 0) == 0,
{
    let sample = events[i].sample as int;
    assert(0 <= sample * 960 / sample_rate) by (nonlinear_arith)
        requires
            0 <= sample,
            sample_rate > 0,
    ;
    if sample * 960 / sample_rate < 0x1_0000_0000_0000_0000 {
        lemma_small_mod(
            (sample * 960 / sample_rate) as nat,
            0x1_0000_0000_0000_0000,
        );
    }
}

/// A file is one header, format 0 with one track of 480 ticks to the quarter, and one
/// track: its tempo of half a second to the quarter, its name, its notes and its end.
pub proof fn what_a_note_file_holds(
    name: Seq<char>,
    sample_rate: int,
    events: Seq<CapturedMidi>,
    n: int,
)
    ensures
        smf(name, sample_rate, events) == chunk_bytes(
            "MThd"@,
            seq![0u8, 0, 0, 1, 0x01, 0xE0],
        ) + chunk_bytes("MTrk"@, track_bytes(name, sample_rate, events)),
        track_bytes(name, sample_rate, events) == track_head(name) + event_bytes(
            events,
            sample_rate,
            events.len() as int,
        ) + track_end(),
        track_head(name) == seq![0u8, 0xFF, 0x51, 0x03, 0x07, 0xA1, 0x20] + seq![
            0u8,
            0xFF,
            0x03,
        ] + vlq(encode_utf8(name).len()) + encode_utf8(name),
        0x07 * 65536 + 0xA1 * 256 + 0x20 == 500_000,
        track_end() == seq![0u8, 0xFF, 0x2F, 0],
        event_bytes(events, sample_rate, 0).len() == 0,
        0 <= n < events.len() ==> event_bytes(events, sample_rate, n + 1) == event_bytes(
            events,
            sample_rate,
            n,
        ) + vlq(gap(events, sample_rate, n) as nat) + message_bytes(events[n]),
{
    assert(be16(0) + be16(1) + be16(480) =~= seq![0u8, 0, 0, 1, 0x01, 0xE0]);
    assert(track_head(name) =~= seq![0u8, 0xFF, 0x51, 0x03, 0x07, 0xA1, 0x20] + seq![
        0u8,
        0xFF,
        0x03,
    ] + vlq(encode_utf8(name).len()) + encode_utf8(name));
}

/// A chunk is its name, its length and what it holds.
pub proof fn a_chunk_says_its_length(id: Seq<char>, payload: Seq<u8>)
    requires
        payload.len() < 0x1_0000_0000,
        id.len() == 4,
    ensures
        chunk_bytes(id, payload).len() == 8 + payload.len(),
        chunk_bytes(id, payload).take(4) == ascii(id),
        big(chunk_bytes(id, payload), 4) == payload.len(),
        chunk_bytes(id, payload).skip(8) == payload,
{
    let bytes = chunk_bytes(id, payload);
    assert(payload.len() % 0x1_0000_0000 == payload.len());
    let length = payload.len() as u32;
    assert(bytes.take(4) =~= ascii(id));
    assert(bytes.skip(8) =~= payload);
    assert(bytes[4] == be32(length)[0] && bytes[5] == be32(length)[1] && bytes[6]
        == be32(length)[2] && bytes[7] == be32(length)[3]);
}

/// A step of a track stands as many ticks behind the one before it as it says, and the
/// tempo is the one last set, half a second to the quarter where none was.
pub proof fn ticks_add_up_and_tempo_holds(track: Seq<StepView>, n: int)
    requires
        0 <= n < track.len(),
    ensures
        tick_after(track, 0) == 0,
        tick_after(track, n + 1) == (tick_after(track, n) + match track[n] {
            StepView::Tempo { delta, .. } => delta,
            StepView::Voice { delta, .. } => delta,
            StepView::Other { delta } => delta,
        }) % 0x1_0000_0000_0000_0000,
        tempo_after(track, 0) == 500_000,
        track[n] matches StepView::Tempo { micros, .. } ==> tempo_after(track, n + 1) == micros,
        !(track[n] is Tempo) ==> tempo_after(track, n + 1) == tempo_after(track, n),
{
}

/// A message of a track is heard with its status and data at the sample of its tick,
/// by the tempo before it. Nothing else of a track is heard.
pub proof fn a_message_is_heard_at_its_tick(
    track: Seq<StepView>,
    ticks: int,
    sample_rate: int,
    i: int,
)
    requires
        0 <= i < track.len(),
    ensures
        heard(track, ticks, sample_rate, 0).len() == 0,
        !(track[i] is Voice) ==> heard(track, ticks, sample_rate, i + 1) == heard(
            track,
            ticks,
            sample_rate,
            i,
        ),
        track[i] matches StepView::Voice { delta, channel, message } ==> {
            let earlier = heard(track, ticks, sample_rate, i);
            let now = heard(track, ticks, sample_rate, i + 1);
            &&& now.len() == earlier.len() + 1
            &&& now.drop_last() == earlier
            &&& now.last().status == encoded(message).0 | channel
            &&& now.last().data1 == encoded(message).1
            &&& now.last().data2 == encoded(message).2
            &&& now.last().sample == sample_at(
                tick_after(track, i + 1),
                tempo_after(track, i),
                ticks,
                sample_rate,
            ) as u64
        },
{
    if track[i] is Voice {
        assert(heard(track, ticks, sample_rate, i + 1).drop_last() =~= heard(
            track,
            ticks,
            sample_rate,
            i,
        ));
    }
}

/// All tracks of a file are heard.
pub proof fn every_track_is_heard(
    tracks: Seq<Seq<StepView>>,
    ticks: int,
    sample_rate: int,
    n: int,
)
    requires
        0 <= n < tracks.len(),
    ensures
        all_heard(tracks, ticks, sample_rate, 0).len() == 0,
        all_heard(tracks, ticks, sample_rate, n + 1) == all_heard(tracks, ticks, sample_rate, n)
            + heard(tracks[n], ticks, sample_rate, tracks[n].len() as int),
{
}

/// A tick is so many millionths of a second by its tempo, and a sample is so many by
/// its rate.
pub proof fn a_tick_is_a_share_of_a_quarter(tick: int, micros: int, ticks: int, sample_rate: int)
    requires
        0 <= tick,
        0 <= micros,
        0 < ticks,
        0 <= sample_rate,
        tick * micros * sample_rate < 0x1_0000_0000_0000_0000,
    ensures
        sample_at(tick, micros, ticks, sample_rate) == tick * micros * sample_rate / (ticks
            * 1_000_000),
{
    let product = tick * micros * sample_rate;
    assert(0 <= product) by (nonlinear_arith)
        requires
            0 <= tick,
            0 <= micros,
            0 <= sample_rate,
            product == tick * micros * sample_rate,
    ;
    let share = product / (ticks * 1_000_000);
    assert(0 <= share <= product) by (nonlinear_arith)
        requires
            share == product / (ticks * 1_000_000),
            0 <= product,
            0 < ticks,
    ;
    lemma_small_mod(share as nat, 0x1_0000_0000_0000_0000);
}

/// The names of the chunks are what they spell.
pub proof fn chunks_are_called_what_they_spell()
    ensures
        HEADER_CHUNK == 'M' as int * 16777216 + 'T' as int * 65536 + 'h' as int * 256 + 'd' as int,
        TRACK_CHUNK == 'M' as int * 16777216 + 'T' as int * 65536 + 'r' as int * 256 + 'k' as int,
        RIFF_CHUNK == 'R' as int * 16777216 + 'I' as int * 65536 + 'F' as int * 256 + 'F' as int,
        RMID_FORM == 'R' as int * 16777216 + 'M' as int * 65536 + 'I' as int * 256 + 'D' as int,
        DATA_CHUNK == 'd' as int * 16777216 + 'a' as int * 65536 + 't' as int * 256 + 'a' as int,
{
}

pub(crate) proof fn lemma_four_bytes(high: u8, upper: u8, lower: u8, low: u8)
    ensures
        ({
            let n = high * 16777216 + upper * 65536 + lower * 256 + low;
            &&& n / 16777216 == high
            &&& n / 65536 % 256 == upper
            &&& n / 256 % 256 == lower
            &&& n % 256 == low
        }),
{
    let n = high * 16777216 + upper * 65536 + lower * 256 + low;
    let two = high * 256 + upper;
    let three = two * 256 + lower;
    lemma_fundamental_div_mod_converse(n, 16777216, high as int, upper * 65536 + lower * 256 + low);
    lemma_fundamental_div_mod_converse(n, 65536, two, lower * 256 + low);
    lemma_fundamental_div_mod_converse(two, 256, high as int, upper as int);
    lemma_fundamental_div_mod_converse(n, 256, three, low as int);
    lemma_fundamental_div_mod_converse(three, 256, two, lower as int);
}

/// Four bytes make a number, the highest first or the lowest first.
pub proof fn four_bytes_make_a_number(bytes: Seq<u8>, i: int)
    ensures
        big(bytes, i) / 16777216 == bytes[i],
        big(bytes, i) % 256 == bytes[i + 3],
        big(bytes, i) / 256 % 256 == bytes[i + 2],
        big(bytes, i) / 65536 % 256 == bytes[i + 1],
        little(bytes, i) % 256 == bytes[i],
        little(bytes, i) / 256 % 256 == bytes[i + 1],
        little(bytes, i) / 65536 % 256 == bytes[i + 2],
        little(bytes, i) / 16777216 == bytes[i + 3],
{
    lemma_four_bytes(bytes[i], bytes[i + 1], bytes[i + 2], bytes[i + 3]);
    lemma_four_bytes(bytes[i + 3], bytes[i + 2], bytes[i + 1], bytes[i]);
}

/// The usual divisions count ticks to the quarter, or 24, 25, 29 or 30 frames to the
/// second, counted down from 256.
pub proof fn which_divisions_are_usual(division: u8)
    ensures
        is_usual(division) <==> division < 128 || division == 256 - 24 || division == 256 - 25
            || division == 256 - 29 || division == 256 - 30,
{
}

/// The lower of two, and the higher. What is not a number gives way.
pub proof fn the_lower_and_the_higher(a: Single, b: Single)
    ensures
        a.is_nan() ==> lower(a, b) == b && higher(a, b) == b,
        b.is_nan() && !a.is_nan() ==> lower(a, b) == a && higher(a, b) == a,
        !a.is_nan() && !b.is_nan() ==> {
            &&& lower(a, b) == a || lower(a, b) == b
            &&& higher(a, b) == a || higher(a, b) == b
            &&& lower(a, b).rank() <= a.rank() && lower(a, b).rank() <= b.rank()
            &&& higher(a, b).rank() >= a.rank() && higher(a, b).rank() >= b.rank()
        },
{
}

/// The extent of some samples is the lowest of them and the highest: both are among
/// them, and no other is lower or higher. What is not a number does not count.
pub proof fn the_extent_holds_every_sample(samples: Seq<Single>)
    requires
        samples.len() > 0,
    ensures
        samples.contains(extent(samples).0),
        samples.contains(extent(samples).1),
        forall|i: int|
            0 <= i < samples.len() && !(#[trigger] samples[i]).is_nan() ==> {
                &&& !extent(samples).0.is_nan()
                &&& !extent(samples).1.is_nan()
                &&& extent(samples).0.rank() <= samples[i].rank() <= extent(samples).1.rank()
            },
    decreases samples.len(),
{
    if samples.len() == 1 {
        assert(samples[0] == extent(samples).0);
    } else {
        let rest = samples.drop_last();
        the_extent_holds_every_sample(rest);
        let i = choose|i: int| 0 <= i < rest.len() && rest[i] == extent(rest).0;
        let j = choose|j: int| 0 <= j < rest.len() && rest[j] == extent(rest).1;
        assert(samples[i] == rest[i] && samples[j] == rest[j]);
        assert(samples[samples.len() - 1] == samples.last());
        assert forall|k: int| 0 <= k < samples.len() && !(#[trigger] samples[k]).is_nan() implies {
            &&& !extent(samples).0.is_nan()
            &&& !extent(samples).1.is_nan()
            &&& extent(samples).0.rank() <= samples[k].rank() <= extent(samples).1.rank()
        } by {
            if k < rest.len() {
                assert(rest[k] == samples[k]);
            }
        }
    }
}

/// Bin `k` is the extent of its own run of samples. There are as many bins as full
/// runs, and what is left over stays open.
pub proof fn a_bin_is_the_extent_of_its_run(samples: Seq<Single>, per_bin: int, k: int)
    requires
        0 < per_bin,
        0 <= k,
        (k + 1) * per_bin <= samples.len(),
    ensures
        k < closed(samples, per_bin).len(),
        closed(samples, per_bin)[k] == extent(samples.subrange(k * per_bin, (k + 1) * per_bin)),
    decreases k,
{
    assert((k + 1) * per_bin == k * per_bin + per_bin) by (nonlinear_arith);
    assert(k * per_bin >= 0) by (nonlinear_arith)
        requires
            k >= 0,
            per_bin > 0,
    ;
    let rest = samples.skip(per_bin);
    let run = samples.subrange(k * per_bin, (k + 1) * per_bin);
    if k == 0 {
        assert(k * per_bin == 0 && (k + 1) * per_bin == per_bin) by (nonlinear_arith)
            requires
                k == 0,
        ;
        assert(run =~= samples.take(per_bin));
    } else {
        assert((k - 1 + 1) * per_bin == k * per_bin && (k - 1) * per_bin == k * per_bin - per_bin)
            by (nonlinear_arith);
        a_bin_is_the_extent_of_its_run(rest, per_bin, k - 1);
        assert(rest.subrange((k - 1) * per_bin, (k - 1 + 1) * per_bin) =~= run);
        assert(closed(samples, per_bin)[k] == closed(rest, per_bin)[k - 1]);
    }
}

/// No bin is closed before it is full, and what is left open is the end of the
/// samples, shorter than a bin.
pub proof fn what_is_left_open(samples: Seq<Single>, per_bin: int)
    requires
        0 < per_bin,
    ensures
        tail(samples, per_bin).len() < per_bin,
        closed(samples, per_bin).len() * per_bin + tail(samples, per_bin).len() == samples.len(),
        tail(samples, per_bin) == samples.skip(samples.len() - tail(samples, per_bin).len()),
    decreases samples.len(),
{
    if samples.len() >= per_bin {
        let rest = samples.skip(per_bin);
        what_is_left_open(rest, per_bin);
        let n = closed(rest, per_bin).len() as int;
        assert((n + 1) * per_bin == n * per_bin + per_bin) by (nonlinear_arith);
        assert(closed(samples, per_bin).len() == n + 1);
        let left = tail(rest, per_bin);
        assert(samples.skip(samples.len() - left.len()) =~= rest.skip(rest.len() - left.len()));
    } else {
        assert(samples.skip(0) =~= samples);
        assert(closed(samples, per_bin).len() == 0);
    }
}

/// A signed number of sixteen bits is written lowest byte first, in two's complement.
pub proof fn signed_numbers_are_written_in_twos_complement(n: i16, low: u8, high: u8)
    ensures
        signed_bytes(n).len() == 2,
        signed_of(signed_bytes(n)[0], signed_bytes(n)[1]) == n,
        high < 128 ==> signed_of(low, high) == low + 256 * high,
        high >= 128 ==> signed_of(low, high) == low + 256 * high - 65536,
        pair_bytes((n, n)) == signed_bytes(n) + signed_bytes(n),
{
}

/// A sidecar of peaks begins with its mark and 512, and one that does not begin with
/// the mark is none.
pub proof fn a_peak_file_begins_with_its_mark(bytes: Seq<u8>)
    ensures
        header_bytes() == seq!['T' as u8, 'P' as u8, 'K' as u8, '1' as u8, 0u8, 2u8, 0u8, 0u8],
        bytes.len() < 8 ==> sidecar_of(bytes) is None,
        bytes.len() >= 8 ==> (sidecar_of(bytes) is Some <==> bytes[0] == 'T' as u8 && bytes[1]
            == 'P' as u8 && bytes[2] == 'K' as u8 && bytes[3] == '1' as u8),
        sidecar_of(bytes) matches Some((per_bin, pairs)) ==> {
            &&& per_bin == bytes[4] + 256 * bytes[5] + 65536 * bytes[6] + 16777216 * bytes[7]
            &&& pairs.len() == (bytes.len() - 8) / 4
            &&& forall|i: int|
                0 <= i < pairs.len() ==> {
                    &&& (#[trigger] pairs[i]).0 == signed_of(bytes[8 + 4 * i], bytes[9 + 4 * i])
                    &&& pairs[i].1 == signed_of(bytes[10 + 4 * i], bytes[11 + 4 * i])
                }
        },
{
    reveal_strlit("TPK1");
    assert(header_bytes() =~= seq![
        'T' as u8,
        'P' as u8,
        'K' as u8,
        '1' as u8,
        0u8,
        2u8,
        0u8,
        0u8,
    ]);
    let mark = ascii("TPK1"@);
    assert(mark =~= seq!['T' as u8, 'P' as u8, 'K' as u8, '1' as u8]);
    if bytes.len() >= 8 {
        let head = bytes.take(4);
        if bytes[0] == 'T' as u8 && bytes[1] == 'P' as u8 && bytes[2] == 'K' as u8 && bytes[3]
            == '1' as u8 {
            assert(head =~= mark);
        }
        if head == mark {
            assert(head[0] == mark[0] && head[1] == mark[1] && head[2] == mark[2] && head[3]
                == mark[3]);
        }
    }
}

/// The totals of a stream are packed one behind the other: the rate in 20 bits, the
/// channels less one in 3, the depth less one in 5 and the samples in 36.
pub proof fn totals_are_packed_one_behind_the_other(totals: Totals)
    requires
        0 <= totals.sample_rate < 0x10_0000,
        1 <= totals.channels <= 8,
        1 <= totals.bits <= 32,
        0 <= totals.total,
    ensures
        ({
            let word = packed(totals) as int;
            &&& word / 0x1000_0000_0000 == totals.sample_rate
            &&& word / 0x200_0000_0000 % 8 == totals.channels - 1
            &&& word / 0x10_0000_0000 % 32 == totals.bits - 1
            &&& word % 0x10_0000_0000 == totals.total % 0x10_0000_0000
        }),
        info_bytes(totals) == be16(totals.min_block) + be16(totals.max_block) + be24(
            totals.min_frame,
        ) + be24(totals.max_frame) + be64(packed(totals)) + totals.digest,
{
    let rate = totals.sample_rate;
    let channels = totals.channels - 1;
    let bits = totals.bits - 1;
    let total = totals.total % 0x10_0000_0000;
    let low = bits * 0x10_0000_0000 + total;
    let mid = channels * 0x200_0000_0000 + low;
    let word = rate * 0x1000_0000_0000 + mid;
    assert(0 <= low < 0x200_0000_0000);
    assert(0 <= mid < 0x1000_0000_0000);
    assert(packed(totals) == word);
    lemma_fundamental_div_mod_converse(word, 0x1000_0000_0000, rate, mid);
    lemma_fundamental_div_mod_converse(word, 0x200_0000_0000, rate * 8 + channels, low);
    lemma_fundamental_div_mod_converse(rate * 8 + channels, 8, rate, channels);
    let upper = (rate * 8 + channels) * 32 + bits;
    assert(word == upper * 0x10_0000_0000 + total);
    lemma_fundamental_div_mod_converse(word, 0x10_0000_0000, upper, total);
    lemma_fundamental_div_mod_converse(upper, 32, rate * 8 + channels, bits);
}

/// A stream that has nothing yet has blocks from 65535 down to 0 and frames from the
/// most down to 0, so that the first one moves both ends.
pub proof fn a_stream_without_frames(sample_rate: int, channels: int, bits: int)
    ensures
        ({
            let none = no_totals(sample_rate, channels, bits);
            &&& none.min_block == 65535 && none.max_block == 0
            &&& none.min_frame == 0xFFFF_FFFF && none.max_frame == 0
            &&& none.total == 0
            &&& none.sample_rate == sample_rate
            &&& none.channels == channels
            &&& none.bits == bits
            &&& none.digest == zeros(16)
        }),
{
    assert(no_totals(sample_rate, channels, bits).digest =~= zeros(16));
}

/// The smallest and the largest frame follow every frame.
pub proof fn frame_sizes_follow(min: u32, max: u32, length: nat)
    requires
        length < 0x1_0000_0000,
    ensures
        sizes_after(min, max, length).0 <= min && sizes_after(min, max, length).0 <= length,
        sizes_after(min, max, length).0 == min || sizes_after(min, max, length).0 == length,
        sizes_after(min, max, length).1 >= max && sizes_after(min, max, length).1 >= length,
        sizes_after(min, max, length).1 == max || sizes_after(min, max, length).1 == length,
{
}

/// What can be encoded: one to eight channels, at rates up to 96 kHz, samples that fit
/// their depth, in whole frames.
pub proof fn what_can_be_encoded(
    sample_rate: int,
    channels: int,
    samples: Seq<i32>,
    i: int,
    block: Seq<i32>,
)
    requires
        0 <= i < samples.len(),
        channels > 0,
    ensures
        can_encode(sample_rate, channels) <==> sample_rate <= 96_000 && channels <= 8,
        in_depth(samples, 16) ==> -32768 <= samples[i] <= 32767,
        in_depth(samples, 24) ==> -8388608 <= samples[i] <= 8388607,
        (forall|k: int| 0 <= k < samples.len() ==> -32768 <= #[trigger] samples[k] <= 32767)
            ==> in_depth(samples, 16),
        (forall|k: int| 0 <= k < samples.len() ==> -8388608 <= #[trigger] samples[k] <= 8388607)
            ==> in_depth(samples, 24),
        whole(block, channels).len() as int % channels == 0,
        block.len() - channels < whole(block, channels).len() <= block.len(),
        whole(block, channels) == block.take(whole(block, channels).len() as int),
{
    let n = block.len() as int;
    let left = n % channels;
    assert(0 <= left < channels && left <= n) by (nonlinear_arith)
        requires
            left == n % channels,
            channels > 0,
            n >= 0,
    ;
    lemma_fundamental_div_mod(n, channels);
    assert((n - left) == channels * (n / channels));
    lemma_mod_multiples_basic(n / channels, channels);
    assert((n / channels) * channels == channels * (n / channels)) by (nonlinear_arith);
}

} // verus!
