//! What the machine granted the audio thread.

use vstd::prelude::*;

use crate::audio::backend::RealtimeStatus;
use crate::audio::backend::RealtimeView;
use crate::audio::backend::Scheduling;
use crate::text::numeral;
use crate::text::push_numeral;

verus! {

/// The priority that the audio thread asks for.
pub const RT_PRIORITY: u32 = 10;

/// Memory that must be lockable before any is locked: 8 MiB.
pub const MEMLOCK_FLOOR: u64 = 8_388_608;

/// What the limits allow.
#[derive(Debug, Clone, Copy, PartialEq, Eq, Structural)]
pub struct Limits {
    pub rtprio: u64,
    /// `None` is unlimited.
    pub memlock: Option<u64>,
}

/// Why there is no real-time scheduling.
pub open spec fn no_rtprio_words(rtprio: u64) -> Seq<char> {
    "no real-time scheduling: RLIMIT_RTPRIO is "@ + numeral(rtprio as nat) + " and this needs "@
        + numeral(RT_PRIORITY as nat)
        + ". Grant it with a limits.d drop-in or LimitRTPRIO= on the unit. Audio still runs; xruns under load are expected."@
}

/// Why memory is not locked.
pub open spec fn no_memlock_words(memlock: u64) -> Seq<char> {
    "real-time scheduling granted, but memory is not locked: RLIMIT_MEMLOCK is "@ + numeral(
        memlock as nat,
    ) + " and this needs "@ + numeral(MEMLOCK_FLOOR as nat)
        + ". Raise it with LimitMEMLOCK= on the unit. A page fault in the render loop shows up as an xrun."@
}

/// Whether the limits let memory be locked.
pub open spec fn can_lock(limits: Limits) -> bool {
    limits.memlock matches Some(bytes) ==> bytes >= MEMLOCK_FLOOR
}

/// The posture that limits allow.
pub open spec fn posture_of(limits: Limits) -> RealtimeView {
    if limits.rtprio < RT_PRIORITY {
        RealtimeView {
            scheduling: Scheduling::Other,
            priority: None,
            memory_locked: false,
            reason: Some(no_rtprio_words(limits.rtprio)),
        }
    } else {
        RealtimeView {
            scheduling: Scheduling::Fifo,
            priority: Some(RT_PRIORITY),
            memory_locked: can_lock(limits),
            reason: if can_lock(limits) {
                None
            } else {
                Some(no_memlock_words(limits.memlock->0))
            },
        }
    }
}

/// Decides the posture from the limits.
pub fn posture(limits: Limits) -> (status: RealtimeStatus)
    ensures
        status@ == posture_of(limits),
{
    if RT_PRIORITY as u64 > limits.rtprio {
        let mut reason: String = "no real-time scheduling: RLIMIT_RTPRIO is ".to_owned();
        push_numeral(&mut reason, limits.rtprio);
        reason.append(" and this needs ");
        push_numeral(&mut reason, RT_PRIORITY as u64);
        reason.append(
            ". Grant it with a limits.d drop-in or LimitRTPRIO= on the unit. Audio still runs; xruns under load are expected.",
        );
        return RealtimeStatus {
            scheduling: Scheduling::Other,
            priority: None,
            memory_locked: false,
            reason: Some(reason),
        };
    }
    let short: Option<u64> = match limits.memlock {
        Some(bytes) => if bytes >= MEMLOCK_FLOOR {
            None
        } else {
            Some(bytes)
        },
        None => None,
    };
    match short {
        None => RealtimeStatus {
            scheduling: Scheduling::Fifo,
            priority: Some(RT_PRIORITY),
            memory_locked: true,
            reason: None,
        },
        Some(bytes) => {
            let mut reason: String =
                "real-time scheduling granted, but memory is not locked: RLIMIT_MEMLOCK is ".to_owned();
            push_numeral(&mut reason, bytes);
            reason.append(" and this needs ");
            push_numeral(&mut reason, MEMLOCK_FLOOR);
            reason.append(
                ". Raise it with LimitMEMLOCK= on the unit. A page fault in the render loop shows up as an xrun.",
            );
            RealtimeStatus {
                scheduling: Scheduling::Fifo,
                priority: Some(RT_PRIORITY),
                memory_locked: false,
                reason: Some(reason),
            }
        },
    }
}

/// What sticks of a posture, given whether the kernel granted the scheduling
/// and whether it locked the memory. A refusal is reported, never passed over.
pub open spec fn stuck(wanted: RealtimeView, fifo: bool, locked: bool) -> RealtimeView {
    let scheduled = if wanted.scheduling == Scheduling::Fifo && !fifo {
        RealtimeView {
            scheduling: Scheduling::Other,
            priority: None,
            reason: Some(
                "the kernel refused SCHED_FIFO even though the limit allows it. Audio still runs; xruns under load are expected."@,
            ),
            ..wanted
        }
    } else {
        wanted
    };
    if wanted.memory_locked && !locked {
        RealtimeView {
            memory_locked: false,
            reason: match scheduled.reason {
                Some(reason) => Some(reason),
                None => Some(
                    "memory could not be locked; a page fault in the render loop shows up as an xrun"@,
                ),
            },
            ..scheduled
        }
    } else {
        scheduled
    }
}

/// Settles a posture once it was tried.
pub fn settle(status: RealtimeStatus, fifo: bool, locked: bool) -> (settled: RealtimeStatus)
    ensures
        settled@ == stuck(status@, fifo, locked),
{
    let mut settled: RealtimeStatus = status;
    if settled.scheduling == Scheduling::Fifo && !fifo {
        settled.scheduling = Scheduling::Other;
        settled.priority = None;
        settled.reason = Some(
            "the kernel refused SCHED_FIFO even though the limit allows it. Audio still runs; xruns under load are expected.".to_owned(),
        );
    }
    if settled.memory_locked && !locked {
        settled.memory_locked = false;
        if settled.reason.is_none() {
            settled.reason = Some(
                "memory could not be locked; a page fault in the render loop shows up as an xrun".to_owned(),
            );
        }
    }
    settled
}

/// A shortfall always comes with a reason, and nothing else does.
pub proof fn a_reason_means_a_shortfall(limits: Limits)
    ensures
        ({
            let status = posture_of(limits);
            status.reason is None <==> status.scheduling == Scheduling::Fifo
                && status.memory_locked
        }),
{
}

} // verus!
