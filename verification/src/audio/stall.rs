//! When an output stream counts as stalled. Times are in nanoseconds since an
//! origin that the caller picks.

use vstd::prelude::*;

verus! {

/// No callback for this long is a stall.
pub const STALL_AFTER: u64 = 2_000_000_000;

#[derive(Debug, Clone, Copy, PartialEq, Eq, Structural)]
pub enum Transition {
    Stalled,
    /// How long the outage lasted.
    Resumed(u64),
}

/// Watches the beats of a stream.
#[derive(Debug, Clone, Copy, PartialEq, Eq, Structural)]
pub struct StallWatch {
    pub last_beat: u64,
    pub last_advance: u64,
    pub stalled: bool,
}

/// The time that has passed; none when the clock went backwards.
pub open spec fn passed(since: u64, now: u64) -> u64 {
    if now > since {
        (now - since) as u64
    } else {
        0
    }
}

impl StallWatch {
    /// A watch that has seen no beat yet.
    pub fn new(now: u64) -> (watch: StallWatch)
        ensures
            watch == (StallWatch { last_beat: 0, last_advance: now, stalled: false }),
    {
        StallWatch { last_beat: 0, last_advance: now, stalled: false }
    }

    /// Looks at the beat counter. Every stall is reported once, and so is its
    /// end.
    pub fn observe(&mut self, beat: u64, now: u64) -> (transition: Option<Transition>)
        ensures
            ({
                let before = *old(self);
                let silence = passed(before.last_advance, now);
                if beat != before.last_beat {
                    &&& *final(self) == (StallWatch {
                        last_beat: beat,
                        last_advance: now,
                        stalled: false,
                    })
                    &&& transition == if before.stalled {
                        Some(Transition::Resumed(silence))
                    } else {
                        None
                    }
                } else if !before.stalled && silence >= STALL_AFTER {
                    &&& *final(self) == (StallWatch { stalled: true, ..before })
                    &&& transition == Some(Transition::Stalled)
                } else {
                    *final(self) == before && transition is None
                }
            }),
    {
        if beat != self.last_beat {
            self.last_beat = beat;
            let outage: u64 = now.saturating_sub(self.last_advance);
            self.last_advance = now;
            if self.stalled {
                self.stalled = false;
                return Some(Transition::Resumed(outage));
            }
            return None;
        }
        if !self.stalled && now.saturating_sub(self.last_advance) >= STALL_AFTER {
            self.stalled = true;
            return Some(Transition::Stalled);
        }
        None
    }
}

/// A watch after a run of looks at the beat counter.
pub open spec fn watched(watch: StallWatch, looks: Seq<(u64, u64)>) -> StallWatch
    decreases looks.len(),
{
    if looks.len() == 0 {
        watch
    } else {
        let before = watched(watch, looks.drop_last());
        let (beat, now) = looks.last();
        if beat != before.last_beat {
            StallWatch { last_beat: beat, last_advance: now, stalled: false }
        } else if !before.stalled && passed(before.last_advance, now) >= STALL_AFTER {
            StallWatch { stalled: true, ..before }
        } else {
            before
        }
    }
}

/// A stream whose every look shows a new beat, however late, never counts as
/// stalled.
pub proof fn a_beating_stream_is_never_stalled(start: u64, looks: Seq<(u64, u64)>)
    requires
        forall|i: int, j: int|
            0 <= i < j < looks.len() ==> (#[trigger] looks[i]).0 != (#[trigger] looks[j]).0,
        forall|i: int| 0 <= i < looks.len() ==> (#[trigger] looks[i]).0 != 0,
    ensures
        ({
            let watch = watched(
                StallWatch { last_beat: 0, last_advance: start, stalled: false },
                looks,
            );
            &&& !watch.stalled
            &&& looks.len() > 0 ==> watch.last_beat == looks.last().0
        }),
    decreases looks.len(),
{
    if looks.len() > 0 {
        let rest = looks.drop_last();
        assert forall|i: int| 0 <= i < rest.len() implies (#[trigger] rest[i]).0 != 0 by {
            assert(rest[i] == looks[i]);
        }
        a_beating_stream_is_never_stalled(start, rest);
        if rest.len() > 0 {
            assert(looks[rest.len() - 1].0 != looks[rest.len() as int].0);
        } else {
            reveal_with_fuel(watched, 2);
        }
    }
}

/// A monitor that stays stalled this long is rebuilt.
pub const REBUILD_AFTER: u64 = 5_000_000_000;

/// What the monitor's keeper is to do about the last look.
#[derive(Debug, Clone, Copy, PartialEq, Eq, Structural)]
pub enum Monitor {
    Leave,
    /// The monitor has stalled just now.
    Stalled,
    /// The monitor is back after an outage.
    Resumed(u64),
}

/// Keeps an eye on the monitor output: reports its stalls, and says when it is
/// time to build it anew.
#[derive(Debug, Clone, Copy, PartialEq, Eq, Structural)]
pub struct MonitorKeeper {
    pub watch: StallWatch,
    pub stalled_since: Option<u64>,
}

impl MonitorKeeper {
    /// A keeper that has seen nothing yet.
    pub fn new(now: u64) -> (keeper: MonitorKeeper)
        ensures
            keeper == (MonitorKeeper {
                watch: StallWatch { last_beat: 0, last_advance: now, stalled: false },
                stalled_since: None,
            }),
    {
        MonitorKeeper { watch: StallWatch::new(now), stalled_since: None }
    }

    /// Looks at the beat counter.
    pub fn look(&mut self, beat: u64, now: u64) -> (news: Monitor)
        ensures
            ({
                let watch = old(self).watch;
                let silence = passed(watch.last_advance, now);
                &&& final(self).watch == watched(watch, seq![(beat, now)])
                &&& if beat != watch.last_beat && watch.stalled {
                    &&& news == Monitor::Resumed(silence)
                    &&& final(self).stalled_since is None
                } else if beat == watch.last_beat && !watch.stalled && silence >= STALL_AFTER {
                    &&& news == Monitor::Stalled
                    &&& final(self).stalled_since == Some(now)
                } else {
                    &&& news == Monitor::Leave
                    &&& final(self).stalled_since == old(self).stalled_since
                }
            }),
    {
        proof {
            reveal_with_fuel(watched, 2);
            let looks = seq![(beat, now)];
            assert(looks.drop_last() =~= Seq::<(u64, u64)>::empty());
            assert(looks.last() == (beat, now));
        }
        match self.watch.observe(beat, now) {
            Some(Transition::Stalled) => {
                self.stalled_since = Some(now);
                Monitor::Stalled
            },
            Some(Transition::Resumed(outage)) => {
                self.stalled_since = None;
                Monitor::Resumed(outage)
            },
            None => Monitor::Leave,
        }
    }

    /// Whether it is time to build the monitor anew.
    pub fn due(&self, now: u64) -> (due: bool)
        ensures
            due == (self.stalled_since matches Some(since) && passed(since, now) >= REBUILD_AFTER),
    {
        match self.stalled_since {
            Some(since) => now.saturating_sub(since) >= REBUILD_AFTER,
            None => false,
        }
    }

    /// Notes that a rebuild was tried: the next one is due a window later.
    pub fn tried(&mut self, now: u64)
        ensures
            *final(self) == (MonitorKeeper { stalled_since: Some(now), ..*old(self) }),
    {
        self.stalled_since = Some(now);
    }
}

/// How often the slowest block is told.
pub const TELL_AFTER: u64 = 1_000_000_000;

/// The slowest block since it was last told, in microseconds.
#[derive(Debug, Clone, Copy, PartialEq, Eq, Structural)]
pub struct WorstBlock {
    pub worst: u32,
    pub since: u64,
}

impl WorstBlock {
    /// A watch that has seen no block yet.
    pub fn new(now: u64) -> (watch: WorstBlock)
        ensures
            watch == (WorstBlock { worst: 0, since: now }),
    {
        WorstBlock { worst: 0, since: now }
    }

    /// Notes how long a block took. Once a second it tells the slowest and starts
    /// over.
    pub fn note(&mut self, micros: u32, now: u64) -> (told: Option<u32>)
        ensures
            ({
                let worst = if micros > old(self).worst {
                    micros
                } else {
                    old(self).worst
                };
                if passed(old(self).since, now) >= TELL_AFTER {
                    told == Some(worst) && *final(self) == (WorstBlock { worst: 0, since: now })
                } else {
                    told is None && *final(self) == (WorstBlock { worst, ..*old(self) })
                }
            }),
    {
        if micros > self.worst {
            self.worst = micros;
        }
        if now.saturating_sub(self.since) < TELL_AFTER {
            return None;
        }
        let worst: u32 = self.worst;
        *self = WorstBlock { worst: 0, since: now };
        Some(worst)
    }
}

} // verus!
