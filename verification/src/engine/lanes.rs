//! What a lane of a take gives, and how loud a sample counts.

use vstd::arithmetic::div_mod::lemma_fundamental_div_mod_converse;
use vstd::prelude::*;

use crate::engine::frame::Stereo;
use crate::engine::meter::loudness;
use crate::engine::meter::raised;
use crate::engine::playback::any_solo;
use crate::engine::playback::audible;
use crate::engine::playback::frame_heard;
use crate::engine::playback::lockstep;
use crate::engine::playback::pull_of;
use crate::engine::playback::retargeted;
use crate::engine::playback::LaneSeen;
use crate::engine::playback::PlaybackTrack;
use crate::engine::playback::Pull;
use crate::engine::voices::voice_laid;
use crate::engine::voices::VoicePlace;
use crate::single::Single;

verus! {

/// Whether a lane is let through: never a muted one. With a solo about, the lanes on
/// solo. Without, the stereo mix alone if the take has one, and every lane if not.
pub proof fn which_lanes_are_let_through<G>(
    has_master: bool,
    solo: bool,
    track: PlaybackTrack<G>,
)
    ensures
        track.mute ==> !audible(has_master, solo, track),
        !track.mute && solo ==> audible(has_master, solo, track) == track.solo,
        !track.mute && !solo && has_master ==> audible(has_master, solo, track)
            == track.is_master,
        !track.mute && !solo && !has_master ==> audible(has_master, solo, track),
{
}

/// The gates of all lanes follow from their solos and mutes, and are set to move.
/// Nothing else of a lane changes.
pub proof fn the_gates_follow_the_switches<G>(
    tracks: Seq<PlaybackTrack<G>>,
    has_master: bool,
    i: int,
)
    requires
        0 <= i < tracks.len(),
    ensures
        retargeted(tracks, has_master).len() == tracks.len(),
        ({
            let solo = exists|j: int| 0 <= j < tracks.len() && (#[trigger] tracks[j]).solo;
            let lane = retargeted(tracks, has_master)[i];
            &&& lane.gate.moved
            &&& lane.gate.open <==> !tracks[i].mute && (if solo {
                tracks[i].solo
            } else {
                !has_master || tracks[i].is_master
            })
            &&& lane.rx == tracks[i].rx
            &&& lane.channels == tracks[i].channels
            &&& lane.is_master == tracks[i].is_master
            &&& lane.solo == tracks[i].solo
            &&& lane.mute == tracks[i].mute
            &&& lane.ramp == tracks[i].ramp
        }),
{
    assert(any_solo(tracks) == exists|j: int| 0 <= j < tracks.len() && (#[trigger] tracks[j]).solo);
}

/// A chunk takes as many frames as were asked for, unless a lane that has not ended
/// holds fewer: it then takes what the scarcest of them holds.
pub proof fn a_chunk_takes_what_the_scarcest_lane_holds<G>(
    tracks: Seq<PlaybackTrack<G>>,
    seen: Seq<LaneSeen>,
    frames: usize,
    n: int,
)
    requires
        0 <= n <= tracks.len() == seen.len(),
        forall|i: int| 0 <= i < tracks.len() ==> (#[trigger] tracks[i]).channels > 0,
    ensures
        ({
            let taken = lockstep(tracks, seen, frames, n);
            &&& taken <= frames
            &&& forall|i: int|
                0 <= i < n && !(#[trigger] seen[i]).ended ==> taken <= seen[i].slots as int
                    / tracks[i].channels as int
            &&& taken == frames || exists|i: int|
                0 <= i < n && !(#[trigger] seen[i]).ended && taken == seen[i].slots as int
                    / tracks[i].channels as int
        }),
    decreases n,
{
    if n > 0 {
        a_chunk_takes_what_the_scarcest_lane_holds(tracks, seen, frames, n - 1);
        let before = lockstep(tracks, seen, frames, n - 1);
        let taken = lockstep(tracks, seen, frames, n);
        assert(tracks[n - 1].channels > 0);
        if taken != before {
            assert(!seen[n - 1].ended);
        } else if before != frames {
            let i = choose|i: int|
                0 <= i < n - 1 && !(#[trigger] seen[i]).ended && before == seen[i].slots as int
                    / tracks[i].channels as int;
            assert(!seen[i].ended);
        }
    }
}

/// The tape has run out when every lane has ended, and not before.
pub proof fn the_tape_runs_out_with_its_last_lane<G>(
    tracks: Seq<PlaybackTrack<G>>,
    seen: Seq<LaneSeen>,
    frames: usize,
)
    ensures
        pull_of(tracks, seen, frames) == Pull::Finished <==> forall|i: int|
            0 <= i < seen.len() ==> (#[trigger] seen[i]).ended,
        pull_of(tracks, seen, frames) matches Pull::Frames(n) ==> n == lockstep(
            tracks,
            seen,
            frames,
            tracks.len() as int,
        ),
{
}

/// A mono lane gives each of its samples to both sides. A stereo lane gives its
/// samples to the left and the right in turn. What is missing is silent.
pub proof fn a_lane_gives_its_samples(popped: Seq<Option<Single>>, f: int)
    requires
        0 <= f,
        2 * f + 1 < popped.len(),
    ensures
        popped[f] matches Some(x) ==> frame_heard(popped, f, false) == (x, x),
        popped[f] is None ==> frame_heard(popped, f, false).0.bits == 0 && frame_heard(
            popped,
            f,
            false,
        ).1.bits == 0,
        popped[2 * f] matches Some(x) ==> frame_heard(popped, f, true).0 == x,
        popped[2 * f + 1] matches Some(x) ==> frame_heard(popped, f, true).1 == x,
        popped[2 * f] is None ==> frame_heard(popped, f, true).0.bits == 0,
        popped[2 * f + 1] is None ==> frame_heard(popped, f, true).1.bits == 0,
{
}

/// A slot of the rack puts its voice on its own channels of the frames at hand: the
/// left side on the first, the right side on the others. Everything around them
/// stays.
pub proof fn a_voice_lies_on_its_channels(
    buf: Seq<Single>,
    place: VoicePlace,
    done: int,
    heard: Seq<Stereo>,
    frame: int,
    channel: int,
)
    requires
        0 <= channel < place.channels,
        0 <= frame,
        frame * place.channels + channel < buf.len(),
    ensures
        voice_laid(buf, place, done, heard).len() == buf.len(),
        ({
            let at = frame * place.channels + channel;
            let put = voice_laid(buf, place, done, heard)[at];
            let mine = done <= frame < done + heard.len() && place.base <= channel < place.base
                + place.width;
            &&& mine && channel == place.base ==> put == heard[frame - done].l
            &&& mine && channel > place.base ==> put == heard[frame - done].r
            &&& !mine ==> put == buf[at]
        }),
{
    let w = place.channels as int;
    let at = frame * w + channel;
    assert(0 <= frame * w) by (nonlinear_arith)
        requires
            0 <= frame,
            0 <= w,
    ;
    lemma_fundamental_div_mod_converse(at, w, frame, channel);
}

/// A sample is as loud as it is far from zero, whichever its sign.
pub proof fn a_sample_is_as_loud_as_it_is_far_from_zero(sample: Single)
    ensures
        sample.rank() >= 0 ==> loudness(sample).rank() == sample.rank(),
        sample.rank() < 0 ==> loudness(sample).rank() == -sample.rank(),
        loudness(sample).rank() >= 0,
        loudness(sample).is_nan() == sample.is_nan(),
        loudness(loudness(sample)) == loudness(sample),
{
}

/// A peak rises to a louder sample and stays at a quieter one. What is not a number
/// does not move it.
pub proof fn a_peak_rises_to_louder_samples(peak: Single, sample: Single)
    requires
        !peak.is_nan(),
        peak.rank() >= 0,
    ensures
        sample.is_nan() ==> raised(peak, sample) == peak,
        !sample.is_nan() && loudness(sample).rank() > peak.rank() ==> raised(peak, sample)
            == loudness(sample),
        !sample.is_nan() && loudness(sample).rank() <= peak.rank() ==> raised(peak, sample) == peak,
{
}

} // verus!
