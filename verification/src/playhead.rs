//! Playback frame by frame: what each frame of a buffer holds and where the
//! playback rests after it.
//!
//! A playhead stands on a segment, at some progress through it, with a count of
//! the frames that the segment still has to give. Each frame first moves a
//! playhead whose segment has run out to the start of the next segment, then
//! takes the interpolated amplitude at the playhead and moves it on by one
//! increment.
use crate::fixed::{lerp, PROGRESS_ONE};
use crate::interval::{
    interval_len, lemma_interval_len_well_formed, lemma_progress_stays,
    lemma_remaining_at_start, phase_span, IntervalLen,
};
use crate::wave::WaveModel;
use vstd::prelude::*;

verus! {

/// A point of the playback within one buffer.
pub struct Playhead {
    /// Index of the node that begins the segment.
    pub cursor: nat,
    /// Progress through the segment, out of `PROGRESS_ONE`.
    pub progress: nat,
    /// Frames that the segment has left to give.
    pub left: nat,
}

/// The length in frames of the segment that begins at node `cursor`.
pub open spec fn segment_len(wave: WaveModel, bufsize: nat, cursor: nat) -> IntervalLen {
    interval_len(
        phase_span(wave.nodes[cursor as int], wave.nodes[wave.next_index(cursor) as int]),
        bufsize,
        wave.freq,
    )
}

/// The playhead that takes up the segment at `cursor` at `progress`: the frames
/// left are counted from the progress.
pub open spec fn enter(wave: WaveModel, bufsize: nat, cursor: nat, progress: nat) -> Playhead {
    Playhead { cursor, progress, left: segment_len(wave, bufsize, cursor).remaining(progress) }
}

/// The playhead from which the next frame is taken: `head` itself while its
/// segment has frames left, else the start of the next segment.
pub open spec fn settle(wave: WaveModel, bufsize: nat, head: Playhead) -> Playhead {
    if head.left == 0 {
        enter(wave, bufsize, wave.next_index(head.cursor), 0)
    } else {
        head
    }
}

/// The amplitude at a playhead.
pub open spec fn amplitude_at(wave: WaveModel, head: Playhead) -> int {
    lerp(
        wave.nodes[head.cursor as int].amplitude as int,
        wave.nodes[wave.next_index(head.cursor) as int].amplitude as int,
        head.progress as int,
    )
}

/// The playhead after the frame that is taken at `head`.
pub open spec fn tick(wave: WaveModel, bufsize: nat, head: Playhead) -> Playhead {
    let from = settle(wave, bufsize, head);
    Playhead {
        cursor: from.cursor,
        progress: from.progress + segment_len(wave, bufsize, from.cursor).increment(),
        left: (from.left - 1) as nat,
    }
}

/// The playhead after `frames` frames of a buffer of `bufsize` frames, starting
/// from the state of `wave`.
pub open spec fn playhead_at(wave: WaveModel, bufsize: nat, frames: nat) -> Playhead
    decreases frames,
{
    if frames == 0 {
        enter(wave, bufsize, wave.cursor, wave.progress)
    } else {
        tick(wave, bufsize, playhead_at(wave, bufsize, (frames - 1) as nat))
    }
}

/// The sample that frame `index` of the buffer holds, on both channels.
pub open spec fn frame_at(wave: WaveModel, bufsize: nat, index: nat) -> int {
    amplitude_at(wave, settle(wave, bufsize, playhead_at(wave, bufsize, index)))
}

/// The wave after a whole buffer: the nodes and the frequency as before, cursor
/// and progress where the playhead came to rest.
pub open spec fn after_buffer(wave: WaveModel, bufsize: nat) -> WaveModel {
    let rest = playhead_at(wave, bufsize, bufsize);
    WaveModel { cursor: rest.cursor, progress: rest.progress, ..wave }
}

/// The playhead is on a node of the wave and its remaining frames fit into what
/// is left of its segment.
pub open spec fn in_bounds(wave: WaveModel, bufsize: nat, head: Playhead) -> bool {
    &&& head.cursor < wave.nodes.len()
    &&& head.progress + head.left * segment_len(wave, bufsize, head.cursor).increment()
        <= PROGRESS_ONE
}

/// Every segment of a well-formed wave has a well-formed length.
pub proof fn lemma_segment_len_well_formed(wave: WaveModel, bufsize: nat, cursor: nat)
    requires
        wave.well_formed(),
        cursor < wave.nodes.len(),
        bufsize <= usize::MAX,
    ensures
        segment_len(wave, bufsize, cursor).well_formed(),
{
    let start = wave.nodes[cursor as int];
    let end = wave.nodes[wave.next_index(cursor) as int];
    lemma_interval_len_well_formed(phase_span(start, end), bufsize, wave.freq);
}

/// Taking up a segment gives a playhead in bounds; at the start of the segment
/// it has a frame to give.
pub proof fn lemma_enter_in_bounds(wave: WaveModel, bufsize: nat, cursor: nat, progress: nat)
    requires
        wave.well_formed(),
        cursor < wave.nodes.len(),
        bufsize <= usize::MAX,
        progress <= PROGRESS_ONE,
    ensures
        in_bounds(wave, bufsize, enter(wave, bufsize, cursor, progress)),
        enter(wave, bufsize, cursor, 0).left >= 1,
{
    let len = segment_len(wave, bufsize, cursor);
    lemma_segment_len_well_formed(wave, bufsize, cursor);
    lemma_progress_stays(len, progress, len.remaining(progress));
    lemma_remaining_at_start(len);
}

/// Settling keeps a playhead in bounds and leaves it with a frame to give.
pub proof fn lemma_settle_in_bounds(wave: WaveModel, bufsize: nat, head: Playhead)
    requires
        wave.well_formed(),
        bufsize <= usize::MAX,
        in_bounds(wave, bufsize, head),
    ensures
        in_bounds(wave, bufsize, settle(wave, bufsize, head)),
        settle(wave, bufsize, head).left >= 1,
        settle(wave, bufsize, settle(wave, bufsize, head)) == settle(wave, bufsize, head),
{
    if head.left == 0 {
        lemma_enter_in_bounds(wave, bufsize, wave.next_index(head.cursor), 0);
    }
}

/// One frame keeps a playhead in bounds.
pub proof fn lemma_tick_in_bounds(wave: WaveModel, bufsize: nat, head: Playhead)
    requires
        wave.well_formed(),
        bufsize <= usize::MAX,
        in_bounds(wave, bufsize, head),
    ensures
        in_bounds(wave, bufsize, tick(wave, bufsize, head)),
{
    let from = settle(wave, bufsize, head);
    lemma_settle_in_bounds(wave, bufsize, head);
    let step = segment_len(wave, bufsize, from.cursor).increment();
    assert(from.left * step == step + (from.left - 1) * step) by (nonlinear_arith)
        requires
            from.left >= 1,
    ;
}

/// Throughout a buffer the playhead stays on the wave and within its segment.
pub proof fn lemma_playhead_in_bounds(wave: WaveModel, bufsize: nat, frames: nat)
    requires
        wave.well_formed(),
        wave.nodes.len() > 0,
        bufsize <= usize::MAX,
    ensures
        in_bounds(wave, bufsize, playhead_at(wave, bufsize, frames)),
        playhead_at(wave, bufsize, frames).progress <= PROGRESS_ONE,
    decreases frames,
{
    if frames == 0 {
        lemma_enter_in_bounds(wave, bufsize, wave.cursor, wave.progress);
    } else {
        lemma_playhead_in_bounds(wave, bufsize, (frames - 1) as nat);
        lemma_tick_in_bounds(wave, bufsize, playhead_at(wave, bufsize, (frames - 1) as nat));
    }
    let head = playhead_at(wave, bufsize, frames);
    assert(0 <= head.left * segment_len(wave, bufsize, head.cursor).increment())
        by (nonlinear_arith);
}

/// While its segment has frames left, the playhead stays on it: each frame adds
/// one increment to the progress and takes one from the frames left.
pub proof fn lemma_run(wave: WaveModel, bufsize: nat, at: nat, frames: nat)
    requires
        wave.well_formed(),
        wave.nodes.len() > 0,
        bufsize <= usize::MAX,
        1 <= frames <= settle(wave, bufsize, playhead_at(wave, bufsize, at)).left,
    ensures
        ({
            let from = settle(wave, bufsize, playhead_at(wave, bufsize, at));
            playhead_at(wave, bufsize, at + frames) == (Playhead {
                cursor: from.cursor,
                progress: from.progress + frames * segment_len(
                    wave,
                    bufsize,
                    from.cursor,
                ).increment(),
                left: (from.left - frames) as nat,
            })
        }),
    decreases frames,
{
    let from = settle(wave, bufsize, playhead_at(wave, bufsize, at));
    let step = segment_len(wave, bufsize, from.cursor).increment();
    assert(playhead_at(wave, bufsize, at + frames) == tick(
        wave,
        bufsize,
        playhead_at(wave, bufsize, (at + frames - 1) as nat),
    ));
    if frames == 1 {
        assert(1 * step == step) by (nonlinear_arith);
    } else {
        lemma_run(wave, bufsize, at, (frames - 1) as nat);
        assert(frames * step == (frames - 1) * step + step) by (nonlinear_arith);
    }
}

} // verus!
