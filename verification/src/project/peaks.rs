//! Waveform peaks: the lowest and the highest sample of every bin of frames.
//!
//! The sidecar of a track is a header and the pairs up to the end of the file,
//! without a count, so that a file cut short can still be read.

use vstd::prelude::*;

use crate::bytes::ascii;
use crate::bytes::le16;
use crate::bytes::le32;
use crate::bytes::push_ascii;
use crate::bytes::push_le16;
use crate::bytes::push_le32;
use crate::single::Single;

verus! {

/// Frames in a bin: about 94 bins a second at 48 kHz.
pub const PEAK_SAMPLES_PER_BIN: u32 = 512;

/// The lower of two samples. What is not a number gives way.
pub open spec fn lower(a: Single, b: Single) -> Single {
    if a.is_nan() || (!b.is_nan() && b.rank() < a.rank()) {
        b
    } else {
        a
    }
}

/// The higher of two samples. What is not a number gives way.
pub open spec fn higher(a: Single, b: Single) -> Single {
    if a.is_nan() || (!b.is_nan() && b.rank() > a.rank()) {
        b
    } else {
        a
    }
}

/// The lowest and the highest of a run of samples.
pub open spec fn extent(samples: Seq<Single>) -> (Single, Single)
    decreases samples.len(),
{
    if samples.len() <= 1 {
        (samples[0], samples[0])
    } else {
        let (low, high) = extent(samples.drop_last());
        (lower(low, samples.last()), higher(high, samples.last()))
    }
}

/// The full bins of a run of samples.
pub open spec fn closed(samples: Seq<Single>, per_bin: int) -> Seq<(Single, Single)>
    decreases samples.len(),
{
    if per_bin <= 0 || samples.len() < per_bin {
        Seq::empty()
    } else {
        seq![extent(samples.take(per_bin))] + closed(samples.skip(per_bin), per_bin)
    }
}

/// The samples behind the last full bin.
pub open spec fn tail(samples: Seq<Single>, per_bin: int) -> Seq<Single>
    decreases samples.len(),
{
    if per_bin <= 0 || samples.len() < per_bin {
        samples
    } else {
        tail(samples.skip(per_bin), per_bin)
    }
}

/// One sample more closes a bin, or it does not.
proof fn lemma_one_more(samples: Seq<Single>, sample: Single, per_bin: int)
    ensures
        ({
            let open = tail(samples, per_bin).push(sample);
            let full = open.len() == per_bin;
            &&& closed(samples.push(sample), per_bin) == if full {
                closed(samples, per_bin).push(extent(open))
            } else {
                closed(samples, per_bin)
            }
            &&& tail(samples.push(sample), per_bin) == if full {
                Seq::empty()
            } else {
                open
            }
        }),
        per_bin > 0 ==> tail(samples, per_bin).len() < per_bin,
    decreases samples.len(),
{
    if per_bin <= 0 {
    } else if samples.len() < per_bin {
        let open = samples.push(sample);
        if open.len() == per_bin {
            assert(open.take(per_bin) =~= open);
            assert(open.skip(per_bin) =~= Seq::empty());
            assert(closed(Seq::empty(), per_bin) == Seq::<(Single, Single)>::empty());
            assert(tail(Seq::empty(), per_bin) == Seq::<Single>::empty());
            assert(closed(open, per_bin) =~= seq![extent(open)]);
            assert(closed(open, per_bin) =~= closed(samples, per_bin).push(extent(open)));
        }
        assert(closed(samples, per_bin) =~= Seq::empty());
    } else {
        lemma_one_more(samples.skip(per_bin), sample, per_bin);
        assert(samples.push(sample).take(per_bin) =~= samples.take(per_bin));
        assert(samples.push(sample).skip(per_bin) =~= samples.skip(per_bin).push(sample));
        let first = seq![extent(samples.take(per_bin))];
        let rest = closed(samples.skip(per_bin), per_bin);
        let open = tail(samples, per_bin).push(sample);
        assert(first + rest.push(extent(open)) =~= (first + rest).push(extent(open)));
    }
}

/// However a track is cut into runs, its bins are the same: the full bins of the
/// first run, then those of what it left open and the second run together.
pub proof fn bins_do_not_depend_on_the_cut(a: Seq<Single>, b: Seq<Single>, per_bin: int)
    ensures
        closed(a + b, per_bin) == closed(a, per_bin) + closed(tail(a, per_bin) + b, per_bin),
        tail(a + b, per_bin) == tail(tail(a, per_bin) + b, per_bin),
    decreases b.len(),
{
    if b.len() == 0 {
        lemma_tail_is_open(a, per_bin);
        assert(a + b =~= a);
        assert(tail(a, per_bin) + b =~= tail(a, per_bin));
        assert(closed(a, per_bin) + Seq::empty() =~= closed(a, per_bin));
    } else {
        let rest = b.drop_last();
        bins_do_not_depend_on_the_cut(a, rest, per_bin);
        lemma_one_more(a + rest, b.last(), per_bin);
        lemma_one_more(tail(a, per_bin) + rest, b.last(), per_bin);
        assert(a + b =~= (a + rest).push(b.last()));
        assert(tail(a, per_bin) + b =~= (tail(a, per_bin) + rest).push(b.last()));
        let first = closed(a, per_bin);
        let second = closed(tail(a, per_bin) + rest, per_bin);
        let bin = extent(tail(a + rest, per_bin).push(b.last()));
        assert(first + second.push(bin) =~= (first + second).push(bin));
    }
}

proof fn lemma_tail_is_open(samples: Seq<Single>, per_bin: int)
    ensures
        closed(tail(samples, per_bin), per_bin) == Seq::<(Single, Single)>::empty(),
        tail(tail(samples, per_bin), per_bin) == tail(samples, per_bin),
    decreases samples.len(),
{
    if per_bin > 0 && samples.len() >= per_bin {
        lemma_tail_is_open(samples.skip(per_bin), per_bin);
    }
}

/// The running lowest and highest over one track's interleaved samples. A bin
/// spans all channels of its frames.
pub struct PeakAccum {
    pub samples_per_bin: u32,
    pub filled: u32,
    pub min: Single,
    pub max: Single,
    pub open: Ghost<Seq<Single>>,
}

impl PeakAccum {
    /// The samples of the bin that is open.
    pub open spec fn open(&self) -> Seq<Single> {
        self.open@
    }

    /// The running values are those of the open bin, which is not full.
    pub open spec fn wf(&self) -> bool {
        &&& self.filled == self.open().len()
        &&& self.filled > 0 ==> (self.min, self.max) == extent(self.open())
        &&& self.samples_per_bin > 0 ==> self.filled < self.samples_per_bin
    }

    /// No bin open.
    pub fn new(channels: u16) -> (accum: PeakAccum)
        ensures
            accum.wf(),
            accum.samples_per_bin == PEAK_SAMPLES_PER_BIN * channels,
            accum.open() == Seq::<Single>::empty(),
    {
        PeakAccum {
            samples_per_bin: PEAK_SAMPLES_PER_BIN * channels as u32,
            filled: 0,
            min: Single { bits: 0 },
            max: Single { bits: 0 },
            open: Ghost(Seq::empty()),
        }
    }

    /// Takes a sample in; the finished bin where it closes one.
    pub fn push(&mut self, sample: Single) -> (bin: Option<(Single, Single)>)
        requires
            old(self).wf(),
            old(self).filled < u32::MAX,
        ensures
            final(self).wf(),
            final(self).samples_per_bin == old(self).samples_per_bin,
            ({
                let open = old(self).open().push(sample);
                if open.len() == old(self).samples_per_bin {
                    bin == Some(extent(open)) && final(self).open() == Seq::<Single>::empty()
                } else {
                    bin is None && final(self).open() == open
                }
            }),
    {
        let ghost before = self.open@;
        if self.filled == 0 {
            self.min = sample;
            self.max = sample;
        } else {
            self.min = lower_of(self.min, sample);
            self.max = higher_of(self.max, sample);
        }
        self.filled = self.filled + 1;
        proof {
            self.open@ = before.push(sample);
            assert(self.open@.drop_last() =~= before);
        }
        if self.filled == self.samples_per_bin {
            self.filled = 0;
            proof {
                self.open@ = Seq::empty();
            }
            Some((self.min, self.max))
        } else {
            None
        }
    }

    /// Takes a run of samples in, and adds the bins that it closes.
    pub fn push_all(&mut self, samples: &Vec<Single>, bins: &mut Vec<(Single, Single)>)
        requires
            old(self).wf(),
            old(self).samples_per_bin > 0,
        ensures
            final(self).wf(),
            final(self).samples_per_bin == old(self).samples_per_bin,
            final(self).open() == tail(
                old(self).open() + samples@,
                old(self).samples_per_bin as int,
            ),
            final(bins)@ == old(bins)@ + closed(
                old(self).open() + samples@,
                old(self).samples_per_bin as int,
            ),
    {
        let ghost start = self.open();
        let ghost per_bin = self.samples_per_bin as int;
        let ghost before = bins@;
        let mut i: usize = 0;
        assert(start + samples@.take(0) =~= start);
        assert(bins@ =~= before + closed(start, per_bin));
        while i < samples.len()
            invariant
                i <= samples@.len(),
                per_bin > 0,
                per_bin == self.samples_per_bin,
                self.wf(),
                self.open() == tail(start + samples@.take(i as int), per_bin),
                bins@ == before + closed(start + samples@.take(i as int), per_bin),
            decreases samples.len() - i,
        {
            let ghost seen = start + samples@.take(i as int);
            proof {
                lemma_one_more(seen, samples@[i as int], per_bin);
                assert(start + samples@.take(i + 1) =~= seen.push(samples@[i as int]));
            }
            let ghost mark = bins@;
            if let Some(bin) = self.push(samples[i]) {
                bins.push(bin);
                assert(bins@ =~= before + closed(seen, per_bin).push(bin));
            }
            i = i + 1;
        }
        assert(samples@.take(samples@.len() as int) =~= samples@);
    }

    /// The bin that is open, if any, once.
    pub fn flush(&mut self) -> (bin: Option<(Single, Single)>)
        requires
            old(self).wf(),
        ensures
            final(self).wf(),
            final(self).samples_per_bin == old(self).samples_per_bin,
            final(self).open() == Seq::<Single>::empty(),
            bin == if old(self).open().len() > 0 {
                Some(extent(old(self).open()))
            } else {
                None::<(Single, Single)>
            },
    {
        if self.filled > 0 {
            self.filled = 0;
            proof {
                self.open@ = Seq::empty();
            }
            Some((self.min, self.max))
        } else {
            assert(self.open() =~= Seq::empty());
            None
        }
    }
}

fn lower_of(a: Single, b: Single) -> (low: Single)
    ensures
        low == lower(a, b),
{
    let a_is_number: bool = a.le(a);
    if !a_is_number || (b.le(a) && !a.le(b)) {
        b
    } else {
        a
    }
}

fn higher_of(a: Single, b: Single) -> (high: Single)
    ensures
        high == higher(a, b),
{
    let a_is_number: bool = a.le(a);
    if !a_is_number || (a.le(b) && !b.le(a)) {
        b
    } else {
        a
    }
}

/// A signed number in two bytes, the low one first.
pub open spec fn signed_bytes(n: i16) -> Seq<u8> {
    le16((n as int % 0x1_0000) as u16)
}

/// The signed number that two bytes write.
pub open spec fn signed_of(low: u8, high: u8) -> i16 {
    let n = low + 256 * high;
    (if n < 0x8000 {
        n
    } else {
        n - 0x1_0000
    }) as i16
}

/// What a sidecar starts with.
pub open spec fn header_bytes() -> Seq<u8> {
    ascii("TPK1"@) + le32(PEAK_SAMPLES_PER_BIN)
}

/// One pair in a sidecar.
pub open spec fn pair_bytes(pair: (i16, i16)) -> Seq<u8> {
    signed_bytes(pair.0) + signed_bytes(pair.1)
}

/// Pairs in a sidecar.
pub open spec fn pairs_bytes(pairs: Seq<(i16, i16)>) -> Seq<u8>
    decreases pairs.len(),
{
    if pairs.len() == 0 {
        Seq::empty()
    } else {
        pairs_bytes(pairs.drop_last()) + pair_bytes(pairs.last())
    }
}

/// Writes what a sidecar starts with.
pub fn write_header(out: &mut Vec<u8>)
    ensures
        final(out)@ == old(out)@ + header_bytes(),
{
    push_ascii(out, "TPK1");
    push_le32(out, PEAK_SAMPLES_PER_BIN);
    assert(out@ =~= old(out)@ + header_bytes());
}

fn write_signed(out: &mut Vec<u8>, n: i16)
    ensures
        final(out)@ == old(out)@ + signed_bytes(n),
{
    let bits: u16 = if n >= 0 {
        n as u16
    } else {
        (0x1_0000i32 + n as i32) as u16
    };
    push_le16(out, bits);
}

/// Writes one pair.
pub fn write_pair(out: &mut Vec<u8>, pair: (i16, i16))
    ensures
        final(out)@ == old(out)@ + pair_bytes(pair),
{
    write_signed(out, pair.0);
    write_signed(out, pair.1);
    assert(out@ =~= old(out)@ + pair_bytes(pair));
}

/// The pair at place `i` of a sidecar.
pub open spec fn pair_at(bytes: Seq<u8>, i: int) -> (i16, i16) {
    (
        signed_of(bytes[8 + 4 * i], bytes[9 + 4 * i]),
        signed_of(bytes[10 + 4 * i], bytes[11 + 4 * i]),
    )
}

/// What a sidecar holds: the frames in a bin, and the pairs. A pair that is cut
/// short is dropped; a file without a header is no sidecar.
pub open spec fn sidecar_of(bytes: Seq<u8>) -> Option<(int, Seq<(i16, i16)>)> {
    if bytes.len() < 8 || bytes.take(4) != ascii("TPK1"@) {
        None
    } else {
        Some(
            (
                bytes[4] + 0x100 * bytes[5] + 0x1_0000 * bytes[6] + 0x100_0000 * bytes[7],
                Seq::new(((bytes.len() - 8) / 4) as nat, |i: int| pair_at(bytes, i)),
            ),
        )
    }
}

fn read_signed(low: u8, high: u8) -> (n: i16)
    ensures
        n == signed_of(low, high),
{
    let n: i32 = low as i32 + 256 * high as i32;
    if n < 0x8000 {
        n as i16
    } else {
        (n - 0x1_0000) as i16
    }
}

/// Reads a sidecar; `None` where the bytes are none.
pub fn read_sidecar(bytes: &Vec<u8>) -> (read: Option<(u32, Vec<(i16, i16)>)>)
    ensures
        match read {
            Some((per_bin, pairs)) => sidecar_of(bytes@) == Some((per_bin as int, pairs@)),
            None => sidecar_of(bytes@) is None,
        },
{
    let length: usize = bytes.len();
    proof {
        reveal_strlit("TPK1");
    }
    if length < 8 {
        return None;
    }
    if bytes[0] != 0x54 || bytes[1] != 0x50 || bytes[2] != 0x4B || bytes[3] != 0x31 {
        assert(bytes@.take(4)[0] == bytes@[0]);
        assert(bytes@.take(4)[1] == bytes@[1]);
        assert(bytes@.take(4)[2] == bytes@[2]);
        assert(bytes@.take(4)[3] == bytes@[3]);
        assert(ascii("TPK1"@)[0] == 0x54);
        assert(ascii("TPK1"@)[1] == 0x50);
        assert(ascii("TPK1"@)[2] == 0x4B);
        assert(ascii("TPK1"@)[3] == 0x31);
        return None;
    }
    assert(bytes@.take(4) =~= ascii("TPK1"@));
    let per_bin: u32 = bytes[4] as u32 + 0x100 * bytes[5] as u32 + 0x1_0000 * bytes[6] as u32
        + 0x100_0000 * bytes[7] as u32;
    let count: usize = (length - 8) / 4;
    let mut pairs: Vec<(i16, i16)> = Vec::new();
    let mut i: usize = 0;
    while i < count
        invariant
            length == bytes@.len(),
            length >= 8,
            count == (length - 8) / 4,
            i <= count,
            pairs@.len() == i,
            forall|k: int| 0 <= k < i ==> #[trigger] pairs@[k] == pair_at(bytes@, k),
        decreases count - i,
    {
        let at: usize = 8 + 4 * i;
        pairs.push(
            (read_signed(bytes[at], bytes[at + 1]), read_signed(bytes[at + 2], bytes[at + 3])),
        );
        i = i + 1;
    }
    assert(pairs@ =~= sidecar_of(bytes@).unwrap().1);
    Some((per_bin, pairs))
}

proof fn lemma_signed(n: i16)
    ensures
        signed_bytes(n).len() == 2,
        signed_of(signed_bytes(n)[0], signed_bytes(n)[1]) == n,
{
}

proof fn lemma_pairs(pairs: Seq<(i16, i16)>, i: int)
    requires
        0 <= i < pairs.len(),
    ensures
        pairs_bytes(pairs).len() == 4 * pairs.len(),
        pairs_bytes(pairs).subrange(4 * i, 4 * i + 4) == pair_bytes(pairs[i]),
    decreases pairs.len(),
{
    let rest = pairs.drop_last();
    if rest.len() > 0 {
        lemma_pairs(rest, if i < rest.len() { i } else { 0 });
    }
    assert(pairs_bytes(rest).len() == 4 * rest.len());
    if i < rest.len() {
        assert(pairs_bytes(pairs).subrange(4 * i, 4 * i + 4) =~= pairs_bytes(rest).subrange(
            4 * i,
            4 * i + 4,
        ));
    } else {
        assert(pairs_bytes(pairs).subrange(4 * i, 4 * i + 4) =~= pair_bytes(pairs[i]));
    }
}

/// What was written to a sidecar reads back, also where its end was torn off in
/// the middle of a pair.
pub proof fn a_sidecar_reads_back(pairs: Seq<(i16, i16)>, torn: Seq<u8>)
    requires
        torn.len() < 4,
    ensures
        sidecar_of(header_bytes() + pairs_bytes(pairs) + torn) == Some(
            (PEAK_SAMPLES_PER_BIN as int, pairs),
        ),
{
    let bytes = header_bytes() + pairs_bytes(pairs) + torn;
    reveal_strlit("TPK1");
    assert(header_bytes().len() == 8);
    if pairs.len() > 0 {
        lemma_pairs(pairs, 0);
    }
    assert(bytes.take(4) =~= ascii("TPK1"@));
    assert(bytes[4] == le32(PEAK_SAMPLES_PER_BIN)[0]);
    assert(bytes[5] == le32(PEAK_SAMPLES_PER_BIN)[1]);
    assert(bytes[6] == le32(PEAK_SAMPLES_PER_BIN)[2]);
    assert(bytes[7] == le32(PEAK_SAMPLES_PER_BIN)[3]);
    assert((bytes.len() - 8) / 4 == pairs.len());
    assert forall|i: int| 0 <= i < pairs.len() implies pair_at(bytes, i) == #[trigger] pairs[i] by {
        lemma_pairs(pairs, i);
        let four = pairs_bytes(pairs).subrange(4 * i, 4 * i + 4);
        assert(four[0] == bytes[8 + 4 * i]);
        assert(four[1] == bytes[9 + 4 * i]);
        assert(four[2] == bytes[10 + 4 * i]);
        assert(four[3] == bytes[11 + 4 * i]);
        lemma_signed(pairs[i].0);
        lemma_signed(pairs[i].1);
    }
    assert(sidecar_of(bytes).unwrap().1 =~= pairs);
}

} // verus!
