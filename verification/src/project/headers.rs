//! Which headers a reader of MIDI files comes across: those of the chunks that a file
//! is made of, also where the file is wrapped in a RIFF file. What merely looks like a
//! header inside a track is none.

use vstd::prelude::*;

use crate::console::instrument::CapturedMidi;
use crate::project::midi::smf;
use crate::project::midi::track_bytes;

verus! {

/// "MThd", the name of a header chunk.
pub const HEADER_CHUNK: u32 = 0x4D54_6864;

/// "MTrk", the name of a track chunk.
pub const TRACK_CHUNK: u32 = 0x4D54_726B;

/// "RIFF", the name of the chunk that wraps a file.
pub const RIFF_CHUNK: u32 = 0x5249_4646;

/// "RMID", which says that what is wrapped is a MIDI file.
pub const RMID_FORM: u32 = 0x524D_4944;

/// "data", the name of the chunk in which the wrapped file lies.
pub const DATA_CHUNK: u32 = 0x6461_7461;

/// The number in four bytes, the highest first.
pub open spec fn big(bytes: Seq<u8>, i: int) -> int {
    bytes[i] * 0x100_0000 + bytes[i + 1] * 0x1_0000 + bytes[i + 2] * 0x100 + bytes[i + 3]
}

/// The number in four bytes, the lowest first.
pub open spec fn little(bytes: Seq<u8>, i: int) -> int {
    bytes[i] + bytes[i + 1] * 0x100 + bytes[i + 2] * 0x1_0000 + bytes[i + 3] * 0x100_0000
}

/// Where the chunk at `i` ends. One that says that it is longer than what is left ends
/// with that.
pub open spec fn chunk_end(i: int, length: int, to: int) -> int {
    if i + 8 + length <= to {
        i + 8 + length
    } else {
        to
    }
}

/// The first byte of a header's division. A header that is too short or of an unknown
/// format has none.
pub open spec fn division(bytes: Seq<u8>, from: int, to: int) -> Option<u8> {
    if to - from < 6 || bytes[from] != 0 || bytes[from + 1] > 2 {
        None
    } else {
        Some(bytes[from + 4])
    }
}

/// Whether a division counts ticks in a quarter, or names one of the four frame rates
/// that there are: 24, 25, 29 and 30, each as its negative.
pub open spec fn is_usual(division: u8) -> bool {
    division < 0x80 || division == 0xE8 || division == 0xE7 || division == 0xE3 || division == 0xE2
}

/// Whether a reader that goes on at the chunk at `i` comes across a header with a frame
/// rate of -128. It stops at a header that it cannot read, and at a track in front of
/// the first header.
pub open spec fn odd_from(bytes: Seq<u8>, i: int, to: int, headed: bool) -> bool
    decreases to - i,
{
    if i < 0 || i + 8 > to {
        false
    } else {
        let end = chunk_end(i, big(bytes, i + 4), to);
        if big(bytes, i) == HEADER_CHUNK {
            match division(bytes, i + 8, end) {
                Some(d) => d == 0x80 || (is_usual(d) && odd_from(bytes, end, to, true)),
                None => false,
            }
        } else if big(bytes, i) == TRACK_CHUNK {
            headed && odd_from(bytes, end, to, headed)
        } else {
            odd_from(bytes, end, to, headed)
        }
    }
}

/// Where the wrapped file lies, from the chunk at `i` on. Chunks of an odd length are
/// padded.
pub open spec fn wrapped_from(bytes: Seq<u8>, i: int, to: int) -> Option<(int, int)>
    decreases to - i,
{
    if i < 0 || i + 8 > to {
        None
    } else {
        let length = little(bytes, i + 4);
        let end = chunk_end(i, length, to);
        if big(bytes, i) == DATA_CHUNK {
            Some((i + 8, end))
        } else if length % 2 == 1 && end < to {
            wrapped_from(bytes, end + 1, to)
        } else {
            wrapped_from(bytes, end, to)
        }
    }
}

/// Where the MIDI file lies in these bytes, if they are one.
pub open spec fn file_at(bytes: Seq<u8>) -> Option<(int, int)> {
    if bytes.len() < 8 {
        None
    } else if big(bytes, 0) == HEADER_CHUNK {
        Some((0, bytes.len() as int))
    } else if big(bytes, 0) == RIFF_CHUNK {
        let end = chunk_end(0, little(bytes, 4), bytes.len() as int);
        if end < 12 || big(bytes, 8) != RMID_FORM {
            None
        } else {
            wrapped_from(bytes, 12, end)
        }
    } else {
        None
    }
}

/// Whether a reader of these bytes comes across a header with a frame rate of -128.
pub open spec fn has_odd_header(bytes: Seq<u8>) -> bool {
    file_at(bytes) matches Some((from, to)) && odd_from(bytes, from, to, false)
}

fn big_at(bytes: &Vec<u8>, i: usize) -> (n: u32)
    requires
        i + 4 <= bytes.len(),
    ensures
        n == big(bytes@, i as int),
{
    bytes[i] as u32 * 0x100_0000 + bytes[i + 1] as u32 * 0x1_0000 + bytes[i + 2] as u32 * 0x100
        + bytes[i + 3] as u32
}

fn little_at(bytes: &Vec<u8>, i: usize) -> (n: u32)
    requires
        i + 4 <= bytes.len(),
    ensures
        n == little(bytes@, i as int),
{
    bytes[i] as u32 + bytes[i + 1] as u32 * 0x100 + bytes[i + 2] as u32 * 0x1_0000 + bytes[i + 3]
        as u32 * 0x100_0000
}

fn end_of(i: usize, length: u32, to: usize) -> (end: usize)
    requires
        i + 8 <= to,
    ensures
        end == chunk_end(i as int, length as int, to as int),
        i + 8 <= end <= to,
{
    if length as u64 <= (to - i - 8) as u64 {
        i + 8 + length as usize
    } else {
        to
    }
}

fn wrapped_file(bytes: &Vec<u8>, from: usize, to: usize) -> (at: Option<(usize, usize)>)
    requires
        to <= bytes@.len(),
    ensures
        match at {
            Some((a, b)) => wrapped_from(bytes@, from as int, to as int) == Some((a as int, b as int))
                && a <= b <= to,
            None => wrapped_from(bytes@, from as int, to as int) is None,
        },
{
    let mut i: usize = from;
    while i <= to && to - i >= 8
        invariant
            to <= bytes@.len(),
            wrapped_from(bytes@, from as int, to as int) == wrapped_from(
                bytes@,
                i as int,
                to as int,
            ),
        decreases to + 1 - i,
    {
        let length: u32 = little_at(bytes, i + 4);
        let end: usize = end_of(i, length, to);
        if big_at(bytes, i) == DATA_CHUNK {
            return Some((i + 8, end));
        }
        i = if length % 2 == 1 && end < to {
            end + 1
        } else {
            end
        };
    }
    None
}

fn meets_odd_header(bytes: &Vec<u8>, from: usize, to: usize) -> (odd: bool)
    requires
        from <= to <= bytes@.len(),
    ensures
        odd == odd_from(bytes@, from as int, to as int, false),
{
    let mut i: usize = from;
    let mut headed: bool = false;
    while to - i >= 8
        invariant
            i <= to <= bytes@.len(),
            odd_from(bytes@, from as int, to as int, false) == odd_from(
                bytes@,
                i as int,
                to as int,
                headed,
            ),
        decreases to - i,
    {
        let end: usize = end_of(i, big_at(bytes, i + 4), to);
        let name: u32 = big_at(bytes, i);
        if name == HEADER_CHUNK {
            if end - i - 8 < 6 || bytes[i + 8] != 0 || bytes[i + 9] > 2 {
                return false;
            }
            let d: u8 = bytes[i + 12];
            if d == 0x80 {
                return true;
            }
            if !(d < 0x80 || d == 0xE8 || d == 0xE7 || d == 0xE3 || d == 0xE2) {
                return false;
            }
            headed = true;
        } else if name == TRACK_CHUNK && !headed {
            return false;
        }
        i = end;
    }
    false
}

/// Whether a reader of these bytes comes across a header with a frame rate of -128.
pub fn names_odd_rate(bytes: &Vec<u8>) -> (odd: bool)
    ensures
        odd == has_odd_header(bytes@),
{
    let length: usize = bytes.len();
    if length < 8 {
        return false;
    }
    let name: u32 = big_at(bytes, 0);
    if name == HEADER_CHUNK {
        return meets_odd_header(bytes, 0, length);
    }
    if name != RIFF_CHUNK {
        return false;
    }
    let end: usize = end_of(0, little_at(bytes, 4), length);
    if end < 12 || big_at(bytes, 8) != RMID_FORM {
        return false;
    }
    match wrapped_file(bytes, 12, end) {
        Some((from, to)) => meets_odd_header(bytes, from, to),
        None => false,
    }
}

/// No file that is written here has such a header, whatever its track is called.
pub proof fn a_written_file_has_no_odd_header(
    name: Seq<char>,
    sample_rate: int,
    events: Seq<CapturedMidi>,
)
    requires
        track_bytes(name, sample_rate, events).len() < 0x1_0000_0000,
    ensures
        !has_odd_header(smf(name, sample_rate, events)),
{
    let bytes = smf(name, sample_rate, events);
    let n = track_bytes(name, sample_rate, events).len() as int;
    let to = bytes.len() as int;
    reveal_strlit("MThd");
    reveal_strlit("MTrk");
    assert(to == 22 + n);
    assert(big(bytes, 0) == HEADER_CHUNK);
    assert(big(bytes, 4) == 6);
    assert(bytes[8] == 0 && bytes[9] == 0 && bytes[12] == 1);
    assert(division(bytes, 8, 14) == Some(1u8));
    assert(big(bytes, 14) == TRACK_CHUNK);
    assert(big(bytes, 18) == n);
    reveal_with_fuel(odd_from, 4);
    assert(!odd_from(bytes, to, to, true));
    assert(!odd_from(bytes, 14, to, true));
}

} // verus!
