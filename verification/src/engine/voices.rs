//! Where the voices of the rack lie in its frame.

use vstd::arithmetic::div_mod::lemma_fundamental_div_mod;
use vstd::arithmetic::div_mod::lemma_fundamental_div_mod_converse;
use vstd::prelude::*;

use crate::engine::frame::Stereo;
use crate::engine::instrument::lemma_width_grows;
use crate::engine::instrument::width_before;
use crate::engine::instrument::InstrumentRack;
use crate::single::Single;

verus! {

/// The channels of one slot in a frame of the rack.
#[derive(Debug, Clone, Copy, PartialEq, Eq, Structural)]
pub struct VoicePlace {
    /// Channels of the whole frame.
    pub channels: usize,
    /// The slot's first channel.
    pub base: usize,
    /// How many channels it has.
    pub width: usize,
}

/// The rack's buffer once a slot was heard from frame `done` on: the first of its
/// channels carries the left side, the others the right, and all else stays.
pub open spec fn voice_laid(
    buf: Seq<Single>,
    place: VoicePlace,
    done: int,
    heard: Seq<Stereo>,
) -> Seq<Single> {
    Seq::new(
        buf.len(),
        |i: int|
            {
                let f = i / place.channels as int - done;
                let c = i % place.channels as int - place.base;
                if 0 <= f < heard.len() && 0 <= c < place.width {
                    if c == 0 {
                        heard[f].l
                    } else {
                        heard[f].r
                    }
                } else {
                    buf[i]
                }
            },
    )
}

/// Whether the sample at `i` is one that has been written: a frame before `f`, or
/// in frame `f` a channel before `c`.
spec fn written(i: int, place: VoicePlace, done: int, f: int, c: int) -> bool {
    let row = i / place.channels as int - done;
    let col = i % place.channels as int - place.base;
    0 <= col < place.width && (0 <= row < f || row == f && col < c)
}

/// Puts what a slot sounds like into the rack's buffer.
pub fn lay_voice(buf: &mut Vec<Single>, place: VoicePlace, done: usize, heard: &Vec<Stereo>)
    requires
        place.base + place.width <= place.channels,
        (done + heard@.len()) * place.channels <= old(buf)@.len(),
    ensures
        final(buf)@ == voice_laid(old(buf)@, place, done as int, heard@),
{
    let ghost before = buf@;
    let ghost laid = voice_laid(before, place, done as int, heard@);
    let length: usize = buf.len();
    let mut f: usize = 0;
    while f < heard.len()
        invariant
            f <= heard@.len(),
            place.base + place.width <= place.channels,
            (done + heard@.len()) * place.channels <= length == before.len(),
            buf@.len() == before.len(),
            laid == voice_laid(before, place, done as int, heard@),
            forall|i: int|
                0 <= i < before.len() ==> #[trigger] buf@[i] == if written(
                    i,
                    place,
                    done as int,
                    f as int,
                    0,
                ) {
                    laid[i]
                } else {
                    before[i]
                },
        decreases heard@.len() - f,
    {
        let mut c: usize = 0;
        while c < place.width
            invariant
                c <= place.width,
                f < heard@.len(),
                place.base + place.width <= place.channels,
                (done + heard@.len()) * place.channels <= length == before.len(),
                buf@.len() == before.len(),
                laid == voice_laid(before, place, done as int, heard@),
                forall|i: int|
                    0 <= i < before.len() ==> #[trigger] buf@[i] == if written(
                        i,
                        place,
                        done as int,
                        f as int,
                        c as int,
                    ) {
                        laid[i]
                    } else {
                        before[i]
                    },
            decreases place.width - c,
        {
            let ghost n = place.channels as int;
            let ghost at = (done + f) * n + place.base + c;
            proof {
                assert((done + f) * n + n <= (done + heard@.len()) * n) by (nonlinear_arith)
                    requires
                        f + 1 <= heard@.len(),
                        n > 0,
                ;
                assert(0 <= (done + f) * n) by (nonlinear_arith)
                    requires
                        n > 0,
                ;
                assert(done + f <= (done + f) * n) by (nonlinear_arith)
                    requires
                        n > 0,
                ;
                lemma_fundamental_div_mod_converse(at, n, done + f, place.base + c);
            }
            let sample: Single = if c == 0 {
                heard[f].l
            } else {
                heard[f].r
            };
            let ghost earlier = buf@;
            buf[(done + f) * place.channels + place.base + c] = sample;
            proof {
                assert(sample == laid[at]);
                assert forall|i: int| 0 <= i < before.len() implies #[trigger] buf@[i] == if written(
                    i,
                    place,
                    done as int,
                    f as int,
                    c + 1,
                ) {
                    laid[i]
                } else {
                    before[i]
                } by {
                    lemma_fundamental_div_mod(i, n);
                    assert(earlier[i] == if written(i, place, done as int, f as int, c as int) {
                        laid[i]
                    } else {
                        before[i]
                    });
                    if i != at {
                        assert(buf@[i] == earlier[i]);
                        if i / n - done == f && i % n - place.base == c {
                            assert(i == n * (i / n) + i % n);
                            assert(n * (done + f) == (done + f) * n) by (nonlinear_arith);
                        }
                    }
                }
            }
            c = c + 1;
        }
        f = f + 1;
    }
    assert(buf@ =~= laid);
}

impl InstrumentRack {
    /// Where a slot lies in the rack's frame.
    pub fn place_of(&self, slot: usize) -> (place: VoicePlace)
        requires
            self.wf(),
            slot < self.widths@.len(),
        ensures
            place.channels == width_before(self.widths@, self.widths@.len() as int),
            place.base == width_before(self.widths@, slot as int),
            place.width == self.widths@[slot as int],
            place.base + place.width <= place.channels,
    {
        let channels: usize = self.channels();
        let mut base: usize = 0;
        let mut i: usize = 0;
        proof {
            lemma_width_grows(self.widths@, slot + 1, self.widths@.len() as int);
        }
        while i < slot
            invariant
                i <= slot < self.widths@.len(),
                self.wf(),
                base == width_before(self.widths@, i as int),
            decreases slot - i,
        {
            proof {
                lemma_width_grows(self.widths@, i + 1, self.widths@.len() as int);
            }
            base = base + self.widths[i] as usize;
            i = i + 1;
        }
        VoicePlace { channels, base, width: self.widths[slot] as usize }
    }
}

/// No two slots of the rack share a channel.
pub proof fn slots_keep_to_their_channels(widths: Seq<u8>, i: int, j: int)
    requires
        0 <= i < j < widths.len(),
    ensures
        width_before(widths, i) + widths[i] as nat <= width_before(widths, j),
{
    lemma_width_grows(widths, i + 1, j);
}

/// What one slot sounds like is not touched by what another one puts beside it.
pub proof fn voices_do_not_touch_each_other(
    buf: Seq<Single>,
    a: VoicePlace,
    b: VoicePlace,
    done: int,
    first: Seq<Stereo>,
    second: Seq<Stereo>,
    i: int,
)
    requires
        a.channels == b.channels,
        a.base + a.width <= b.base || b.base + b.width <= a.base,
        0 <= i < buf.len(),
        a.base <= i % (a.channels as int) < a.base + a.width,
    ensures
        voice_laid(voice_laid(buf, a, done, first), b, done, second)[i] == voice_laid(
            buf,
            a,
            done,
            first,
        )[i],
{
}

} // verus!
