//! What each command leaves of the engine.

use vstd::prelude::*;

use crate::console::instrument::CapturedMidi;
use crate::engine::compiled::CompiledGraph;
use crate::engine::compiled::EqCoeffs;
use crate::engine::dispatch::eq_changed;
use crate::engine::dispatch::flag_switched;
use crate::engine::dispatch::param_moved;
use crate::engine::engine::chunk_frames;
use crate::engine::engine::finished;
use crate::engine::engine::obeyed;
use crate::engine::engine::obeyed_all;
use crate::engine::engine::record_captured;
use crate::engine::engine::stamp;
use crate::engine::engine::tape_laid;
use crate::engine::engine::CaptureView;
use crate::engine::engine::ChunkEnd;
use crate::engine::engine::EngineCommand;
use crate::engine::engine::EngineView;
use crate::engine::engine::PlaybackView;
use crate::engine::engine::RecordView;
use crate::engine::engine::RetiredView;
use crate::engine::frame::the_tape_stays_in_the_monitor_pair;
use crate::engine::instrument::Heard;
use crate::engine::instrument::InstrumentRack;
use crate::engine::playback::any_solo;
use crate::engine::playback::retargeted;
use crate::engine::playback::PlaybackSet;
use crate::engine::playback::PlaybackTrack;
use crate::engine::playback::Pull;
use crate::engine::record::RecordSet;
use crate::engine::ring::one_by_one;
use crate::engine::rings::EqIx;
use crate::engine::rings::FlagIx;
use crate::engine::rings::MonitorTarget;
use crate::engine::rings::ParamIx;
use crate::single::Single;

verus! {

/// The clocks, and what was offered to the other side's meters and its stream, stand
/// as they were.
pub open spec fn same_clocks<D, G>(e: EngineView<D, G>, next: EngineView<D, G>) -> bool {
    &&& next.frame == e.frame
    &&& next.sample_frame == e.sample_frame
    &&& next.metered == e.metered
    &&& next.streamed == e.streamed
}

/// The graph, the rack and the monitor stand as they were.
pub open spec fn same_sound<D, G>(e: EngineView<D, G>, next: EngineView<D, G>) -> bool {
    &&& next.graph == e.graph
    &&& next.dsp == e.dsp
    &&& next.rack == e.rack
    &&& next.monitor == e.monitor
}

/// After a stop there is no record set, and the one there was is the last thing
/// handed to the control side. Where there was none, nothing is handed over.
pub proof fn a_stop_ends_the_recording<D, G>(e: EngineView<D, G>)
    ensures
        ({
            let next = obeyed(e, EngineCommand::StopRecord);
            &&& next.record is None
            &&& match e.record {
                Some(set) => {
                    &&& next.handed.len() == e.handed.len() + 1
                    &&& next.handed.last() == RetiredView::<D, G>::Record(set)
                    &&& next.handed.drop_last() == e.handed
                },
                None => next.handed == e.handed,
            }
            &&& next.playback == e.playback
            &&& same_sound(e, next)
            &&& same_clocks(e, next)
        }),
{
}

/// After a stop there is no playback set, and the one there was is the last thing
/// handed to the control side.
pub proof fn a_stop_ends_the_playback<D, G>(e: EngineView<D, G>)
    ensures
        ({
            let next = obeyed(e, EngineCommand::StopPlayback);
            &&& next.playback is None
            &&& match e.playback {
                Some(set) => {
                    &&& next.handed.len() == e.handed.len() + 1
                    &&& next.handed.last() == RetiredView::<D, G>::Playback(set)
                    &&& next.handed.drop_last() == e.handed
                },
                None => next.handed == e.handed,
            }
            &&& next.record == e.record
            &&& same_sound(e, next)
            &&& same_clocks(e, next)
        }),
{
}

/// A start puts the given record set to work, with the notes counted from here, and
/// hands the one before it to the control side.
pub proof fn a_start_begins_a_recording<D, G>(e: EngineView<D, G>, set: Box<RecordSet>)
    ensures
        ({
            let next = obeyed(e, EngineCommand::StartRecord { set });
            &&& next.record matches Some(now)
            &&& now.strip_tracks == set.strip_tracks@
            &&& now.master_track == set.master_track
            &&& now.tracks == set.tracks@
            &&& match (set.midi, now.midi) {
                (Some(given), Some(midi)) => {
                    &&& midi.start == e.sample_frame
                    &&& midi.offered == given.offered()
                    &&& midi.tried == given.tried()
                    &&& midi.recorded == given.recorded()
                    &&& midi.origin == given.origin()
                    &&& midi.lost == given.lost()
                },
                (None, None) => true,
                _ => false,
            }
            &&& match e.record {
                Some(before) => next.handed == e.handed.push(RetiredView::Record(before)),
                None => next.handed == e.handed,
            }
            &&& next.playback == e.playback
            &&& same_sound(e, next)
            &&& same_clocks(e, next)
        }),
{
}

/// A start puts the given playback set to work and hands the one before it to the
/// control side.
pub proof fn a_start_begins_a_playback<D, G>(e: EngineView<D, G>, set: Box<PlaybackSet<G>>)
    ensures
        ({
            let next = obeyed(e, EngineCommand::StartPlayback { set });
            &&& next.playback matches Some(now)
            &&& now.tracks == set.tracks@
            &&& now.has_master == set.has_master
            &&& now.shared == set.shared
            &&& now.told == set.told@
            &&& match e.playback {
                Some(before) => next.handed == e.handed.push(RetiredView::Playback(before)),
                None => next.handed == e.handed,
            }
            &&& next.record == e.record
            &&& same_sound(e, next)
            &&& same_clocks(e, next)
        }),
{
}

/// A new graph takes over, and the one before it goes to the control side. The takes
/// and the clocks run on.
pub proof fn a_new_graph_takes_over<D, G>(e: EngineView<D, G>, graph: Box<CompiledGraph<D>>)
    ensures
        ({
            let next = obeyed(e, EngineCommand::SwapGraph { graph });
            &&& next.graph == graph@
            &&& next.dsp == graph.dsp
            &&& next.handed == e.handed.push(RetiredView::Graph(e.graph, e.dsp))
            &&& next.rack == e.rack
            &&& next.record == e.record
            &&& next.playback == e.playback
            &&& next.monitor == e.monitor
            &&& same_clocks(e, next)
        }),
{
}

/// A new rack takes over. The one before it goes to the control side with every
/// voice told to let its notes go.
pub proof fn a_new_rack_takes_over<D, G>(e: EngineView<D, G>, rack: Box<InstrumentRack>)
    ensures
        ({
            let next = obeyed(e, EngineCommand::SwapRack { rack });
            &&& next.rack.voices == rack@
            &&& next.rack.widths == rack.widths@
            &&& next.handed.len() == e.handed.len() + 1
            &&& next.handed.drop_last() == e.handed
            &&& next.handed.last() matches RetiredView::Rack(gone)
            &&& gone.widths == e.rack.widths
            &&& gone.voices.len() == e.rack.voices.len()
            &&& forall|i: int|
                0 <= i < gone.voices.len() ==> match (e.rack.voices[i], #[trigger] gone.voices[i]) {
                    (Some(before), Some(after)) => {
                        &&& after.heard == before.heard.push(Heard::Release)
                        &&& after.binding == before.binding
                        &&& after.keys == before.keys
                        &&& after.settings == before.settings
                        &&& after.font == before.font
                    },
                    (None, None) => true,
                    _ => false,
                }
            &&& next.graph == e.graph
            &&& next.dsp == e.dsp
            &&& next.record == e.record
            &&& next.playback == e.playback
            &&& next.monitor == e.monitor
            &&& same_clocks(e, next)
        }),
{
    assert(obeyed(e, EngineCommand::SwapRack { rack }).handed.drop_last() =~= e.handed);
}

/// Which lanes of a take are let through: none that is muted. Where a lane is on
/// solo, those on solo. Otherwise the stereo mix alone, if the take has one, and
/// every lane if it has none.
pub open spec fn lanes_open<G>(set: PlaybackView<G>) -> bool {
    forall|k: int|
        0 <= k < set.tracks.len() ==> {
            let lane = #[trigger] set.tracks[k];
            let solo = exists|j: int| 0 <= j < set.tracks.len() && (#[trigger] set.tracks[j]).solo;
            &&& lane.mute ==> !lane.gate.open
            &&& !lane.mute && solo ==> lane.gate.open == lane.solo
            &&& !lane.mute && !solo && set.has_master ==> lane.gate.open == lane.is_master
            &&& !lane.mute && !solo && !set.has_master ==> lane.gate.open
        }
}

/// Every lane is as it was but for its gate.
pub open spec fn lanes_kept<G>(set: PlaybackView<G>, next: PlaybackView<G>) -> bool {
    &&& next.tracks.len() == set.tracks.len()
    &&& next.has_master == set.has_master
    &&& next.shared == set.shared
    &&& next.told == set.told
    &&& forall|k: int|
        0 <= k < set.tracks.len() ==> {
            &&& (#[trigger] next.tracks[k]).rx == set.tracks[k].rx
            &&& next.tracks[k].channels == set.tracks[k].channels
            &&& next.tracks[k].is_master == set.tracks[k].is_master
            &&& next.tracks[k].ramp == set.tracks[k].ramp
        }
}

/// A solo reaches the one lane, and the gates of all of them follow.
pub proof fn a_solo_reaches_its_lane<D, G>(e: EngineView<D, G>, track: u16, on: bool)
    ensures
        ({
            let next = obeyed(e, EngineCommand::SetPlaybackSolo { track, on });
            &&& match (e.playback, next.playback) {
                (Some(set), Some(now)) => if track < set.tracks.len() {
                    &&& lanes_kept(set, now)
                    &&& lanes_open(now)
                    &&& forall|k: int|
                        0 <= k < set.tracks.len() ==> {
                            &&& (#[trigger] now.tracks[k]).mute == set.tracks[k].mute
                            &&& now.tracks[k].gate.moved
                            &&& now.tracks[k].solo == if k == track {
                                on
                            } else {
                                set.tracks[k].solo
                            }
                        }
                } else {
                    now == set
                },
                (None, None) => true,
                _ => false,
            }
            &&& next.record == e.record
            &&& next.handed == e.handed
            &&& same_sound(e, next)
            &&& same_clocks(e, next)
        }),
{
    if let Some(set) = e.playback {
        if track < set.tracks.len() {
            let now = obeyed(e, EngineCommand::SetPlaybackSolo { track, on }).playback->0;
            lemma_gates(
                set.tracks.update(
                    track as int,
                    PlaybackTrack { solo: on, ..set.tracks[track as int] },
                ),
                now,
            );
        }
    }
}

/// A mute reaches the one lane, and the gates of all of them follow.
pub proof fn a_mute_reaches_its_lane<D, G>(e: EngineView<D, G>, track: u16, on: bool)
    ensures
        ({
            let next = obeyed(e, EngineCommand::SetPlaybackMute { track, on });
            &&& match (e.playback, next.playback) {
                (Some(set), Some(now)) => if track < set.tracks.len() {
                    &&& lanes_kept(set, now)
                    &&& lanes_open(now)
                    &&& forall|k: int|
                        0 <= k < set.tracks.len() ==> {
                            &&& (#[trigger] now.tracks[k]).solo == set.tracks[k].solo
                            &&& now.tracks[k].gate.moved
                            &&& now.tracks[k].mute == if k == track {
                                on
                            } else {
                                set.tracks[k].mute
                            }
                        }
                } else {
                    now == set
                },
                (None, None) => true,
                _ => false,
            }
            &&& next.record == e.record
            &&& next.handed == e.handed
            &&& same_sound(e, next)
            &&& same_clocks(e, next)
        }),
{
    if let Some(set) = e.playback {
        if track < set.tracks.len() {
            let now = obeyed(e, EngineCommand::SetPlaybackMute { track, on }).playback->0;
            lemma_gates(
                set.tracks.update(
                    track as int,
                    PlaybackTrack { mute: on, ..set.tracks[track as int] },
                ),
                now,
            );
        }
    }
}

proof fn lemma_gates<G>(
    tracks: Seq<PlaybackTrack<G>>,
    now: PlaybackView<G>,
)
    requires
        now.tracks == retargeted(tracks, now.has_master),
    ensures
        lanes_open(now),
{
    assert forall|j: int| 0 <= j < tracks.len() implies (#[trigger] now.tracks[j]).solo
        == tracks[j].solo by {}
    assert(any_solo(tracks) == exists|j: int|
        0 <= j < now.tracks.len() && (#[trigger] now.tracks[j]).solo) by {
        if any_solo(tracks) {
            let j = choose|j: int| 0 <= j < tracks.len() && (#[trigger] tracks[j]).solo;
            assert(now.tracks[j].solo);
        }
    }
}

/// A monitor target takes effect, and nothing else changes.
pub proof fn a_monitor_target_takes_effect<D, G>(e: EngineView<D, G>, target: MonitorTarget)
    ensures
        ({
            let next = obeyed(e, EngineCommand::SetMonitorTarget { target });
            &&& next.monitor == target
            &&& next.graph == e.graph
            &&& next.dsp == e.dsp
            &&& next.rack == e.rack
            &&& next.record == e.record
            &&& next.playback == e.playback
            &&& next.handed == e.handed
            &&& same_clocks(e, next)
        }),
{
}

/// A move, a switch and new coefficients reach the graph, and nothing else changes.
pub proof fn a_move_stays_in_the_graph<D, G>(
    e: EngineView<D, G>,
    param: ParamIx,
    target: Single,
    flag: FlagIx,
    on: bool,
    eq: EqIx,
    coeffs: EqCoeffs,
)
    ensures
        ({
            let moved = obeyed(e, EngineCommand::SetParam { param, target });
            let switched = obeyed(e, EngineCommand::SetFlag { flag, on });
            let changed = obeyed(e, EngineCommand::SetEqCoeffs { eq, coeffs });
            &&& moved.graph == param_moved(e.graph, param, target)
            &&& switched.graph == flag_switched(e.graph, flag, on)
            &&& changed.graph == eq_changed(e.graph, eq, coeffs)
            &&& forall|next: EngineView<D, G>|
                #![trigger same_clocks(e, next)]
                next == moved || next == switched || next == changed ==> {
                    &&& next.dsp == e.dsp
                    &&& next.rack == e.rack
                    &&& next.record == e.record
                    &&& next.playback == e.playback
                    &&& next.monitor == e.monitor
                    &&& next.handed == e.handed
                    &&& same_clocks(e, next)
                }
        }),
{
}

/// A take that is not running does not begin by itself: without a start among the
/// commands there is no record set behind them either.
pub proof fn no_recording_without_a_start<D, G>(
    e: EngineView<D, G>,
    commands: Seq<EngineCommand<D, G>>,
    n: int,
)
    requires
        0 <= n <= commands.len(),
        e.record is None,
        forall|k: int| 0 <= k < n ==> !((#[trigger] commands[k]) is StartRecord),
    ensures
        obeyed_all(e, commands, n).record is None,
    decreases n,
{
    if n > 0 {
        no_recording_without_a_start(e, commands, n - 1);
        assert(!(commands[n - 1] is StartRecord));
    }
}

/// Behind a block whose last word on recording is a stop there is no record set.
pub proof fn a_stopped_take_stays_stopped<D, G>(
    e: EngineView<D, G>,
    commands: Seq<EngineCommand<D, G>>,
    stop: int,
    n: int,
)
    requires
        0 <= stop < n <= commands.len(),
        commands[stop] is StopRecord,
        forall|k: int| stop < k < n ==> !((#[trigger] commands[k]) is StartRecord),
    ensures
        obeyed_all(e, commands, n).record is None,
    decreases n,
{
    if n == stop + 1 {
        a_stop_ends_the_recording(obeyed_all(e, commands, stop));
    } else {
        a_stopped_take_stays_stopped(e, commands, stop, n - 1);
        assert(!(commands[n - 1] is StartRecord));
    }
}

/// Behind a block whose last word on playback is a stop there is no playback set.
pub proof fn a_stopped_playback_stays_stopped<D, G>(
    e: EngineView<D, G>,
    commands: Seq<EngineCommand<D, G>>,
    stop: int,
    n: int,
)
    requires
        0 <= stop < n <= commands.len(),
        commands[stop] is StopPlayback,
        forall|k: int| stop < k < n ==> !((#[trigger] commands[k]) is StartPlayback),
    ensures
        obeyed_all(e, commands, n).playback is None,
    decreases n,
{
    if n == stop + 1 {
        a_stop_ends_the_playback(obeyed_all(e, commands, stop));
    } else {
        a_stopped_playback_stays_stopped(e, commands, stop, n - 1);
        assert(!(commands[n - 1] is StartPlayback));
    }
}

/// A recording that was started runs on until a stop or the next start.
pub proof fn a_started_take_runs_on<D, G>(
    e: EngineView<D, G>,
    commands: Seq<EngineCommand<D, G>>,
    n: int,
)
    requires
        0 <= n <= commands.len(),
        forall|k: int|
            0 <= k < n ==> !((#[trigger] commands[k]) is StartRecord) && !(commands[k] is StopRecord),
    ensures
        obeyed_all(e, commands, n).record == e.record,
    decreases n,
{
    if n > 0 {
        a_started_take_runs_on(e, commands, n - 1);
        assert(!(commands[n - 1] is StartRecord) && !(commands[n - 1] is StopRecord));
    }
}

/// What the engine let go of stays handed over, in order.
pub proof fn what_is_handed_over_stays_so<D, G>(
    e: EngineView<D, G>,
    commands: Seq<EngineCommand<D, G>>,
    n: int,
)
    requires
        0 <= n <= commands.len(),
    ensures
        e.handed.is_prefix_of(obeyed_all(e, commands, n).handed),
        same_clocks(e, obeyed_all(e, commands, n)),
    decreases n,
{
    if n > 0 {
        what_is_handed_over_stays_so(e, commands, n - 1);
    }
}

/// Commands are obeyed one by one, in order.
pub proof fn commands_are_obeyed_in_order<D, G>(
    e: EngineView<D, G>,
    commands: Seq<EngineCommand<D, G>>,
    n: int,
)
    requires
        0 <= n < commands.len(),
    ensures
        obeyed_all(e, commands, 0) == e,
        obeyed_all(e, commands, n + 1) == obeyed(obeyed_all(e, commands, n), commands[n]),
{
}

/// The end of a chunk counts one block and its frames, offers one block of meters,
/// and sends the tape's frames to the stream where the stream is the monitor. A tape
/// that has run out is let go of, one that gave frames counts them, and nothing of a
/// recording changes.
pub proof fn a_chunk_ends<D, G>(e: EngineView<D, G>, end: ChunkEnd)
    requires
        e.frame < u64::MAX,
        e.sample_frame + end.chunk <= u64::MAX,
        end.pull matches Some(Pull::Frames(n)) ==> 2 * n <= end.tape.len(),
        e.graph.meter_count <= 64,
    ensures
        ({
            let next = finished(e, end);
            &&& next.frame == e.frame + 1
            &&& next.sample_frame == e.sample_frame + end.chunk
            &&& next.metered.len() == e.metered.len() + 1
            &&& next.metered.drop_last() == e.metered
            &&& next.metered.last().len() == 1
            &&& next.metered.last()[0].frame == e.frame
            &&& next.metered.last()[0].count == e.graph.meter_count
            &&& next.metered.last()[0].peak == end.peak
            &&& next.metered.last()[0].clip_bits == end.clip_bits
            &&& next.record == e.record
            &&& same_sound(e, next)
            &&& match end.pull {
                None => {
                    &&& next.playback == e.playback
                    &&& next.handed == e.handed
                    &&& next.streamed == e.streamed
                },
                Some(Pull::Finished) => {
                    &&& next.playback is None
                    &&& next.streamed == e.streamed
                    &&& match e.playback {
                        Some(set) => next.handed == e.handed.push(RetiredView::Playback(set)),
                        None => next.handed == e.handed,
                    }
                },
                Some(Pull::Frames(n)) => {
                    &&& next.handed == e.handed
                    &&& match (e.playback, next.playback) {
                        (Some(set), Some(now)) => {
                            &&& now.told.frames == set.told.frames + n
                            &&& now.told.finished == set.told.finished
                            &&& now.tracks == set.tracks
                            &&& now.has_master == set.has_master
                            &&& now.shared == set.shared
                        },
                        (None, None) => true,
                        _ => false,
                    }
                    &&& e.monitor == MonitorTarget::Hardware ==> next.streamed == e.streamed
                    &&& e.monitor == MonitorTarget::Stream ==> {
                        &&& next.streamed.len() == e.streamed.len() + 2 * n
                        &&& forall|k: int|
                            0 <= k < e.streamed.len() ==> #[trigger] next.streamed[k]
                                == e.streamed[k]
                        &&& forall|k: int|
                            0 <= k < 2 * n ==> #[trigger] next.streamed[e.streamed.len() + k]
                                == seq![end.tape[k]]
                    }
                },
            }
        }),
{
    let next = finished(e, end);
    assert(next.metered.drop_last() =~= e.metered);
    if let Some(Pull::Frames(n)) = end.pull {
        let fresh = one_by_one(end.tape.take(2 * n));
        assert(fresh.len() == 2 * n);
        if e.monitor == MonitorTarget::Stream {
            assert forall|k: int| 0 <= k < 2 * n implies #[trigger] next.streamed[e.streamed.len()
                + k] == seq![end.tape[k]] by {
                assert(fresh[k] =~= seq![end.tape[k]]);
            }
        }
    }
}

/// The tape goes to the plane only where it gave frames and the hardware is the
/// monitor, and then to the first two channels of the chunk's frames.
pub proof fn the_tape_goes_to_the_hardware(
    plane: Seq<Single>,
    done: int,
    end: ChunkEnd,
    frame: int,
    channel: int,
)
    requires
        0 <= done,
        (done + end.chunk) * 64 <= plane.len(),
        0 <= frame,
        0 <= channel < 64,
        (frame + 1) * 64 <= plane.len(),
    ensures
        tape_laid(plane, MonitorTarget::Stream, done, end) == plane,
        !(end.pull matches Some(Pull::Frames(_))) ==> tape_laid(
            plane,
            MonitorTarget::Hardware,
            done,
            end,
        ) == plane,
        end.pull matches Some(Pull::Frames(_)) ==> {
            let heard = tape_laid(plane, MonitorTarget::Hardware, done, end)[frame * 64 + channel];
            &&& done <= frame < done + end.chunk && channel == 0 ==> heard == end.tape[2 * (frame
                - done)]
            &&& done <= frame < done + end.chunk && channel == 1 ==> heard == end.tape[2 * (frame
                - done) + 1]
            &&& !(done <= frame < done + end.chunk) || channel >= 2 ==> heard == plane[frame * 64
                + channel]
        },
{
    the_tape_stays_in_the_monitor_pair(
        plane,
        done,
        end.tape,
        end.chunk as int,
        frame,
        channel,
    );
}

/// Notes that come in without a recording leave none behind.
pub proof fn nothing_is_captured_without_a_take(
    after: Option<RecordView>,
    entries: Seq<CapturedMidi>,
)
    requires
        record_captured(None, after, entries),
    ensures
        after is None,
{
}

/// Notes that come in while a recording runs are offered to it behind those before
/// them, each on its own. Every one offered is either recorded or counted as lost,
/// and the tracks of sound are left alone.
pub proof fn a_take_captures_its_notes(
    before: RecordView,
    after: Option<RecordView>,
    midi: CaptureView,
    entries: Seq<CapturedMidi>,
)
    requires
        record_captured(Some(before), after, entries),
        before.midi == Some(midi),
    ensures
        after is Some,
        after->0.tracks == before.tracks,
        after->0.strip_tracks == before.strip_tracks,
        after->0.master_track == before.master_track,
        after->0.midi is Some,
        ({
            let now = after->0.midi->0;
            &&& now.offered == midi.offered + entries
            &&& now.tried.len() == midi.tried.len() + entries.len()
            &&& forall|k: int|
                0 <= k < entries.len() ==> #[trigger] now.tried[midi.tried.len() + k]
                    == seq![entries[k]]
            &&& midi.recorded.is_prefix_of(now.recorded)
            &&& (now.recorded.len() - midi.recorded.len()) + (now.lost - midi.lost)
                == entries.len()
            &&& now.start == midi.start
        }),
{
    let now = after->0.midi->0;
    assert forall|k: int| 0 <= k < entries.len() implies #[trigger] now.tried[midi.tried.len()
        + k] == seq![entries[k]] by {
        assert(one_by_one(entries)[k] =~= seq![entries[k]]);
    }
}

/// A block is done in chunks as long as the graph's, and a shorter one at the end.
pub proof fn a_chunk_is_a_block_or_the_rest(frames: int, block_size: int, done: int)
    ensures
        frames - done >= block_size ==> chunk_frames(frames, block_size, done) == block_size,
        frames - done < block_size ==> chunk_frames(frames, block_size, done) == frames - done,
{
}

/// A note is stamped with the samples since its take began.
pub proof fn a_note_is_stamped_from_the_start_of_its_take<D, G>(
    e: EngineView<D, G>,
    set: RecordView,
    midi: CaptureView,
    rendered: u64,
)
    requires
        e.record == Some(set),
        set.midi == Some(midi),
    ensures
        e.sample_frame >= midi.start ==> stamp(e, rendered) == e.sample_frame + rendered
            - midi.start,
        e.sample_frame < midi.start ==> stamp(e, rendered) == rendered,
{
}

} // verus!
