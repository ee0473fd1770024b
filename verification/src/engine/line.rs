//! A delay line: what was put in comes back some samples later.

use vstd::prelude::*;

use crate::single::Single;

verus! {

/// The last samples that were put in, in a ring that never grows.
pub struct DelayLine {
    line: Vec<Single>,
    /// Where the next sample goes, which is where the oldest one is.
    at: usize,
    put: Ghost<Seq<Single>>,
}

/// The place of the sample that was put in `k` samples before the one that goes to
/// `at` next.
spec fn slot(at: int, length: int, k: int) -> int {
    if k <= at {
        at - k
    } else {
        at - k + length
    }
}

impl DelayLine {
    /// Everything that was put in, in order, behind the silence that the line
    /// started with.
    pub closed spec fn put(&self) -> Seq<Single> {
        self.put@
    }

    /// How far back the line goes.
    pub closed spec fn length(&self) -> nat {
        self.line@.len()
    }

    /// The line holds the last samples that were put in.
    pub closed spec fn wf(&self) -> bool {
        &&& 0 < self.line@.len() <= self.put@.len()
        &&& self.at < self.line@.len()
        &&& forall|k: int|
            1 <= k <= self.line@.len() ==> self.line@[#[trigger] slot(
                self.at as int,
                self.line@.len() as int,
                k,
            )] == self.put@[self.put@.len() - k]
    }

    /// A silent line that goes back so many samples.
    pub fn new(length: usize) -> (line: DelayLine)
        requires
            length > 0,
        ensures
            line.wf(),
            line.length() == length,
            line.put() == Seq::new(length as nat, |i: int| Single { bits: 0 }),
    {
        let mut line: Vec<Single> = Vec::with_capacity(length);
        let mut i: usize = 0;
        while i < length
            invariant
                i <= length,
                line@.len() == i,
                forall|j: int| 0 <= j < i ==> #[trigger] line@[j] == (Single { bits: 0 }),
            decreases length - i,
        {
            line.push(Single { bits: 0 });
            i = i + 1;
        }
        assert(line@ =~= Seq::new(length as nat, |i: int| Single { bits: 0 }));
        DelayLine { line, at: 0, put: Ghost(line@) }
    }

    /// The sample that was put in `delay` samples ago, 1 being the last one. A delay
    /// that the line is too short for reads one sample short of its length; a delay
    /// of nothing reads its whole length.
    pub fn tap(&self, delay: usize) -> (sample: Single)
        requires
            self.wf(),
        ensures
            ({
                let back = if delay < self.length() {
                    delay as int
                } else {
                    self.length() - 1
                };
                sample == self.put()[self.put().len() - if back == 0 {
                    self.length() as int
                } else {
                    back
                }]
            }),
    {
        let length: usize = self.line.len();
        let back: usize = if delay < length {
            delay
        } else {
            length - 1
        };
        let at: usize = if back <= self.at {
            self.at - back
        } else {
            length - (back - self.at)
        };
        proof {
            let k = if back == 0 {
                length as int
            } else {
                back as int
            };
            assert(at == slot(self.at as int, length as int, k));
        }
        self.line[at]
    }

    /// The oldest sample that the line holds.
    pub fn oldest(&self) -> (sample: Single)
        requires
            self.wf(),
        ensures
            sample == self.put()[self.put().len() - self.length()],
    {
        assert(self.at == slot(self.at as int, self.line@.len() as int, self.line@.len() as int));
        self.line[self.at]
    }

    /// Puts a sample in, in place of the oldest.
    pub fn put_in(&mut self, sample: Single)
        requires
            old(self).wf(),
        ensures
            final(self).wf(),
            final(self).length() == old(self).length(),
            final(self).put() == old(self).put().push(sample),
    {
        let ghost before = *self;
        let length: usize = self.line.len();
        let at: usize = self.at;
        self.line[at] = sample;
        self.at = if at == length - 1 {
            0
        } else {
            at + 1
        };
        proof {
            self.put@ = self.put@.push(sample);
            assert forall|k: int| 1 <= k <= length implies self.line@[#[trigger] slot(
                self.at as int,
                length as int,
                k,
            )] == self.put@[self.put@.len() - k] by {
                if k > 1 {
                    assert(slot(self.at as int, length as int, k) == slot(
                        at as int,
                        length as int,
                        k - 1,
                    ));
                    assert(slot(at as int, length as int, k - 1) != at);
                } else {
                    assert(slot(self.at as int, length as int, 1) == at);
                }
            }
        }
    }
}

/// A sample comes back after the delay: with `delay` samples put in from it on, it
/// is what a tap at that delay reads.
pub proof fn a_sample_comes_back_after_the_delay(
    line: DelayLine,
    before: Seq<Single>,
    sample: Single,
    since: Seq<Single>,
)
    requires
        line.wf(),
        line.put() == before.push(sample) + since,
        since.len() + 1 < line.length(),
    ensures
        line.put()[line.put().len() - (since.len() + 1)] == sample,
{
}

} // verus!
