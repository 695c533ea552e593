//! What holds of the synthesis core whatever the nodes, the frequency and the
//! buffers are.
use crate::engine::{device_after, device_response, DeviceAction, DeviceEvent, DeviceState};
use crate::fixed::{
    clamp_freq, lemma_lerp_bounds, lemma_lerp_monotone, lerp, FREQ_MAX, FREQ_ONE, PHASE_CYCLE,
    PROGRESS_ONE,
};
use crate::interval::{
    interval_len, lemma_interval_len_well_formed, lemma_remaining_at_start, phase_span,
    IntervalLen,
};
use crate::node::{
    has_phase, inserted, insertion_point, lemma_insert_keeps_order, lemma_insertion_point_exists,
    strictly_increasing, SynthError, WaveNode,
};
use crate::playhead::{
    after_buffer, amplitude_at, enter, frame_at, in_bounds, lemma_enter_in_bounds, lemma_playhead_in_bounds,
    lemma_run, lemma_segment_len_well_formed, lemma_settle_in_bounds, playhead_at, segment_len,
    settle, tick, Playhead,
};
use crate::wave::WaveModel;
use vstd::prelude::*;

verus! {

/// The node list after attempts to insert the nodes of `batch`, one after the
/// other.
pub open spec fn inserted_all(nodes: Seq<WaveNode>, batch: Seq<WaveNode>) -> Seq<WaveNode>
    decreases batch.len(),
{
    if batch.len() == 0 {
        nodes
    } else {
        inserted(inserted_all(nodes, batch.drop_last()), batch.last())
    }
}

/// No two nodes of `batch` share a phase, and none shares one with a node of
/// `nodes`.
pub open spec fn all_phases_new(nodes: Seq<WaveNode>, batch: Seq<WaveNode>) -> bool {
    &&& forall|i: int, j: int|
        0 <= i < j < batch.len() ==> batch[i].wave_pos != batch[j].wave_pos
    &&& forall|i: int| 0 <= i < batch.len() ==> !has_phase(nodes, #[trigger] batch[i].wave_pos)
}

/// The frames that the first `segments` segments of the wave last together,
/// each played from its start.
pub open spec fn cycle_frames(wave: WaveModel, bufsize: nat, segments: nat) -> nat
    decreases segments,
{
    if segments == 0 {
        0
    } else {
        cycle_frames(wave, bufsize, (segments - 1) as nat) + segment_len(
            wave,
            bufsize,
            (segments - 1) as nat,
        ).whole_frames()
    }
}

/// An attempt to insert a node leaves an ordered list ordered. A node at a free
/// phase is then in the list, which has grown by one; a node at a taken phase
/// leaves the list as it was.
pub proof fn law_insert_keeps_order(nodes: Seq<WaveNode>, node: WaveNode)
    requires
        strictly_increasing(nodes),
    ensures
        strictly_increasing(inserted(nodes, node)),
        has_phase(inserted(nodes, node), node.wave_pos),
        has_phase(nodes, node.wave_pos) ==> inserted(nodes, node) == nodes,
        !has_phase(nodes, node.wave_pos) ==> inserted(nodes, node).len() == nodes.len() + 1,
        forall|phase: u32|
            has_phase(inserted(nodes, node), phase) <==> has_phase(nodes, phase) || phase
                == node.wave_pos,
{
    let after = inserted(nodes, node);
    if !has_phase(nodes, node.wave_pos) {
        lemma_insertion_point_exists(nodes, node.wave_pos);
        let at = insertion_point(nodes, node.wave_pos);
        lemma_insert_keeps_order(nodes, node, at);
        assert(after[at] == node);
        assert forall|phase: u32| has_phase(after, phase) implies has_phase(nodes, phase)
            || phase == node.wave_pos by {
            let i = choose|i: int| 0 <= i < after.len() && #[trigger] after[i].wave_pos == phase;
            if i < at {
                assert(nodes[i].wave_pos == phase);
            } else if i > at {
                assert(nodes[i - 1].wave_pos == phase);
            }
        }
        assert forall|phase: u32| has_phase(nodes, phase) implies has_phase(after, phase) by {
            let i = choose|i: int| 0 <= i < nodes.len() && #[trigger] nodes[i].wave_pos == phase;
            if i < at {
                assert(after[i].wave_pos == phase);
            } else {
                assert(after[i + 1].wave_pos == phase);
            }
        }
    }
}

/// A node at the phase of a node of the list is turned away: the list stays as
/// it was, and so does its length.
pub proof fn law_duplicate_rejected(nodes: Seq<WaveNode>, node: WaveNode)
    requires
        has_phase(nodes, node.wave_pos),
    ensures
        inserted(nodes, node) == nodes,
        inserted(nodes, node).len() == nodes.len(),
{
}

/// Whatever nodes are inserted one after the other into an ordered list, the
/// list is ordered after each insertion, and it holds the phases that it held
/// and those of the nodes. Where all their phases are new, each insertion adds
/// its node.
pub proof fn law_insertions_keep_order(nodes: Seq<WaveNode>, batch: Seq<WaveNode>)
    requires
        strictly_increasing(nodes),
    ensures
        forall|count: int|
            0 <= count <= batch.len() ==> strictly_increasing(
                #[trigger] inserted_all(nodes, batch.take(count)),
            ),
        strictly_increasing(inserted_all(nodes, batch)),
        forall|phase: u32|
            has_phase(inserted_all(nodes, batch), phase) <==> has_phase(nodes, phase)
                || has_phase(batch, phase),
        all_phases_new(nodes, batch) ==> inserted_all(nodes, batch).len() == nodes.len()
            + batch.len(),
    decreases batch.len(),
{
    if batch.len() == 0 {
        assert forall|count: int| 0 <= count <= batch.len() implies strictly_increasing(
            #[trigger] inserted_all(nodes, batch.take(count)),
        ) by {
            assert(batch.take(count).len() == 0);
        }
        assert forall|phase: u32| !has_phase(batch, phase) by {}
    } else {
        let front = batch.drop_last();
        let node = batch.last();
        law_insertions_keep_order(nodes, front);
        let before = inserted_all(nodes, front);
        law_insert_keeps_order(before, node);
        assert forall|count: int| 0 <= count <= batch.len() implies strictly_increasing(
            #[trigger] inserted_all(nodes, batch.take(count)),
        ) by {
            if count == batch.len() {
                assert(batch.take(count) =~= batch);
            } else {
                assert(batch.take(count) =~= front.take(count));
            }
        }
        assert forall|phase: u32|
            has_phase(inserted_all(nodes, batch), phase) <==> has_phase(nodes, phase) || has_phase(
                batch,
                phase,
            ) by {
            if has_phase(front, phase) {
                let i = choose|i: int| 0 <= i < front.len() && #[trigger] front[i].wave_pos == phase;
                assert(batch[i].wave_pos == phase);
            }
            if phase == node.wave_pos {
                assert(batch[batch.len() - 1].wave_pos == phase);
            }
            if has_phase(batch, phase) {
                let i = choose|i: int| 0 <= i < batch.len() && #[trigger] batch[i].wave_pos == phase;
                if i < front.len() {
                    assert(front[i].wave_pos == phase);
                }
            }
        }
        if all_phases_new(nodes, batch) {
            assert forall|i: int, j: int| 0 <= i < j < front.len() implies front[i].wave_pos
                != front[j].wave_pos by {
                assert(front[i] == batch[i] && front[j] == batch[j]);
            }
            assert forall|i: int| 0 <= i < front.len() implies !has_phase(
                nodes,
                #[trigger] front[i].wave_pos,
            ) by {
                assert(front[i] == batch[i]);
            }
            assert(all_phases_new(nodes, front));
            assert(!has_phase(nodes, batch[batch.len() - 1].wave_pos));
            if has_phase(front, node.wave_pos) {
                let i = choose|i: int|
                    0 <= i < front.len() && #[trigger] front[i].wave_pos == node.wave_pos;
                assert(batch[i].wave_pos != batch[batch.len() - 1].wave_pos);
            }
            assert(!has_phase(before, node.wave_pos));
        }
    }
}

/// A frequency multiplier below the range is stored as the lower bound, one
/// above it as the upper bound, one within it as it is; clamping again changes
/// nothing.
pub proof fn law_clamp_to_nearest_bound(value: int)
    ensures
        0 <= clamp_freq(value) <= FREQ_MAX,
        value < 0 ==> clamp_freq(value) == 0,
        value > FREQ_MAX ==> clamp_freq(value) == FREQ_MAX,
        0 <= value <= FREQ_MAX ==> clamp_freq(value) == value,
        clamp_freq(clamp_freq(value)) == clamp_freq(value),
{
}

/// At twice the frequency multiplier a segment lasts half as long, and half as
/// many whole frames, rounded down. This holds while the segment is at least
/// one frame long at the doubled frequency; a shorter one counts as one frame
/// at both.
pub proof fn law_doubling_frequency_halves_segment(span: nat, bufsize: nat, freq: nat)
    requires
        1 <= span <= PHASE_CYCLE,
        bufsize <= usize::MAX,
        0 < freq,
        2 * freq <= FREQ_MAX,
        span * bufsize >= 2 * freq * FREQ_ONE,
    ensures
        interval_len(span, bufsize, freq) == (IntervalLen::Frames {
            num: (span * bufsize) as u128,
            den: (freq * FREQ_ONE) as u64,
        }),
        interval_len(span, bufsize, 2 * freq) == (IntervalLen::Frames {
            num: (span * bufsize) as u128,
            den: (2 * (freq * FREQ_ONE)) as u64,
        }),
        interval_len(span, bufsize, freq).whole_frames() == (span * bufsize) as int / (freq
            * FREQ_ONE) as int,
        interval_len(span, bufsize, 2 * freq).whole_frames() == interval_len(
            span,
            bufsize,
            freq,
        ).whole_frames() / 2,
{
    let num = span * bufsize;
    let den = freq * FREQ_ONE;
    assert(2 * freq * FREQ_ONE == den * 2) by (nonlinear_arith)
        requires
            den == freq * FREQ_ONE,
    ;
    assert(den > 0) by (nonlinear_arith)
        requires
            den == freq * FREQ_ONE,
            FREQ_ONE == 0x1_0000,
            freq > 0,
    ;
    lemma_interval_len_well_formed(span, bufsize, freq);
    lemma_interval_len_well_formed(span, bufsize, 2 * freq);
    vstd::arithmetic::div_mod::lemma_div_denominator(num as int, den as int, 2);
}

/// At twice the frequency multiplier the segments of a wave together last half
/// as many frames, short by at most one frame for each segment. This holds
/// while every segment is at least one frame long at the doubled frequency.
pub proof fn law_doubling_frequency_halves_cycle(wave: WaveModel, bufsize: nat, segments: nat)
    requires
        wave.well_formed(),
        segments <= wave.nodes.len(),
        bufsize <= usize::MAX,
        0 < wave.freq,
        2 * wave.freq <= FREQ_MAX,
        forall|i: int|
            0 <= i < wave.nodes.len() ==> phase_span(
                #[trigger] wave.nodes[i],
                wave.nodes[wave.next_index(i as nat) as int],
            ) * bufsize >= 2 * wave.freq * FREQ_ONE,
    ensures
        ({
            let fast = WaveModel { freq: 2 * wave.freq, ..wave };
            &&& 2 * cycle_frames(fast, bufsize, segments) <= cycle_frames(wave, bufsize, segments)
            &&& cycle_frames(wave, bufsize, segments) <= 2 * cycle_frames(fast, bufsize, segments)
                + segments
        }),
    decreases segments,
{
    if segments > 0 {
        let last = (segments - 1) as nat;
        law_doubling_frequency_halves_cycle(wave, bufsize, last);
        let fast = WaveModel { freq: 2 * wave.freq, ..wave };
        let span = phase_span(wave.nodes[last as int], wave.nodes[wave.next_index(last) as int]);
        assert(fast.next_index(last) == wave.next_index(last));
        lemma_interval_len_well_formed(span, bufsize, wave.freq);
        lemma_interval_len_well_formed(span, bufsize, 2 * wave.freq);
        law_doubling_frequency_halves_segment(span, bufsize, wave.freq);
        assert(segment_len(fast, bufsize, last) == interval_len(span, bufsize, 2 * wave.freq));
    }
}

/// A segment occupies the frames that it has left: from a playhead that gives
/// its next frame on some segment, playback stays on that segment for exactly
/// the frames the segment has left and then takes up the next segment at its
/// start.
pub proof fn law_segment_lasts_its_frames(wave: WaveModel, bufsize: nat, at: nat)
    requires
        wave.well_formed(),
        wave.nodes.len() > 0,
        bufsize <= usize::MAX,
    ensures
        ({
            let from = settle(wave, bufsize, playhead_at(wave, bufsize, at));
            &&& from.left >= 1
            &&& forall|frames: nat|
                frames < from.left ==> (#[trigger] settle(
                    wave,
                    bufsize,
                    playhead_at(wave, bufsize, at + frames),
                )).cursor == from.cursor
            &&& settle(wave, bufsize, playhead_at(wave, bufsize, at + from.left)) == enter(
                wave,
                bufsize,
                wave.next_index(from.cursor),
                0,
            )
        }),
{
    let from = settle(wave, bufsize, playhead_at(wave, bufsize, at));
    lemma_playhead_in_bounds(wave, bufsize, at);
    lemma_settle_in_bounds(wave, bufsize, playhead_at(wave, bufsize, at));
    assert forall|frames: nat| frames < from.left implies (#[trigger] settle(
        wave,
        bufsize,
        playhead_at(wave, bufsize, at + frames),
    )).cursor == from.cursor by {
        if frames > 0 {
            lemma_run(wave, bufsize, at, frames);
        }
    }
    lemma_run(wave, bufsize, at, from.left);
}

/// A full cycle occupies the frames of its segments: a wave at rest at the start
/// of its first segment is, after the frames that its segments last together,
/// at the start of its first segment again. This holds while the whole frames of
/// every segment can be counted in `usize`.
pub proof fn law_cycle_lasts_cycle_frames(wave: WaveModel, bufsize: nat, segments: nat)
    requires
        wave.well_formed(),
        wave.nodes.len() > 0,
        bufsize <= usize::MAX,
        wave.cursor == 0,
        wave.progress == 0,
        segments <= wave.nodes.len(),
        forall|i: nat|
            i < wave.nodes.len() ==> (#[trigger] segment_len(wave, bufsize, i)).whole_frames()
                <= usize::MAX,
    ensures
        settle(wave, bufsize, playhead_at(wave, bufsize, cycle_frames(wave, bufsize, segments)))
            == enter(
            wave,
            bufsize,
            if segments < wave.nodes.len() {
                segments
            } else {
                0
            },
            0,
        ),
    decreases segments,
{
    if segments == 0 {
        lemma_enter_in_bounds(wave, bufsize, 0, 0);
    } else {
        let last = (segments - 1) as nat;
        law_cycle_lasts_cycle_frames(wave, bufsize, last);
        let before = cycle_frames(wave, bufsize, last);
        let len = segment_len(wave, bufsize, last);
        lemma_segment_len_well_formed(wave, bufsize, last);
        lemma_remaining_at_start(len);
        assert(enter(wave, bufsize, last, 0).left == len.whole_frames());
        law_segment_lasts_its_frames(wave, bufsize, before);
    }
}

/// Every sample lies between the amplitudes of the two nodes of the segment
/// that it is taken from: playback adds no peak of its own.
pub proof fn law_frames_stay_between_nodes(wave: WaveModel, bufsize: nat, index: nat)
    requires
        wave.well_formed(),
        wave.nodes.len() > 0,
        bufsize <= usize::MAX,
    ensures
        ({
            let head = settle(wave, bufsize, playhead_at(wave, bufsize, index));
            let from = wave.nodes[head.cursor as int].amplitude;
            let to = wave.nodes[wave.next_index(head.cursor) as int].amplitude;
            &&& head.cursor < wave.nodes.len()
            &&& from <= to ==> from <= frame_at(wave, bufsize, index) <= to
            &&& to <= from ==> to <= frame_at(wave, bufsize, index) <= from
        }),
{
    lemma_playhead_in_bounds(wave, bufsize, index);
    let head = settle(wave, bufsize, playhead_at(wave, bufsize, index));
    lemma_settle_in_bounds(wave, bufsize, playhead_at(wave, bufsize, index));
    assert(0 <= head.left * segment_len(wave, bufsize, head.cursor).increment())
        by (nonlinear_arith);
    lemma_lerp_bounds(
        wave.nodes[head.cursor as int].amplitude as int,
        wave.nodes[wave.next_index(head.cursor) as int].amplitude as int,
        head.progress as int,
    );
}

/// At the frequency multiplier zero the playhead stands still: every frame of
/// a buffer holds the amplitude at the point where the wave rests, and the wave
/// rests there after the buffer.
pub proof fn law_frequency_zero_holds_the_playhead(wave: WaveModel, bufsize: nat, index: nat)
    requires
        wave.well_formed(),
        wave.nodes.len() > 0,
        wave.freq == 0,
        wave.progress < PROGRESS_ONE,
        index < bufsize <= usize::MAX,
    ensures
        frame_at(wave, bufsize, index) == lerp(
            wave.nodes[wave.cursor as int].amplitude as int,
            wave.nodes[wave.next_index(wave.cursor) as int].amplitude as int,
            wave.progress as int,
        ),
        after_buffer(wave, bufsize) == wave,
{
    let start = enter(wave, bufsize, wave.cursor, wave.progress);
    assert(segment_len(wave, bufsize, wave.cursor) == IntervalLen::Endless);
    assert(start.left == usize::MAX);
    assert(settle(wave, bufsize, playhead_at(wave, bufsize, 0)) == start);
    if index > 0 {
        lemma_run(wave, bufsize, 0, index);
        assert(index * 0 == 0) by (nonlinear_arith);
    }
    lemma_run(wave, bufsize, 0, bufsize);
    assert(bufsize * 0 == 0) by (nonlinear_arith);
}

/// The amplitude of the node that ends the segment of `head`.
pub open spec fn end_amplitude(wave: WaveModel, head: Playhead) -> int {
    wave.nodes[wave.next_index(head.cursor) as int].amplitude as int
}

/// Playback has no jumps within a buffer: each sample lies between the sample
/// before it and the node that ends the segment of that sample. Where the
/// segment has run out, the sample is the amplitude of that node.
pub proof fn law_frames_move_towards_the_end_node(wave: WaveModel, bufsize: nat, index: nat)
    requires
        wave.well_formed(),
        wave.nodes.len() > 0,
        bufsize <= usize::MAX,
    ensures
        ({
            let head = settle(wave, bufsize, playhead_at(wave, bufsize, index));
            let target = end_amplitude(wave, head);
            let this = frame_at(wave, bufsize, index);
            let next = frame_at(wave, bufsize, index + 1);
            &&& this <= target ==> this <= next <= target
            &&& target <= this ==> target <= next <= this
            &&& head.left == 1 ==> next == target
        }),
{
    let head = settle(wave, bufsize, playhead_at(wave, bufsize, index));
    lemma_playhead_in_bounds(wave, bufsize, index);
    lemma_settle_in_bounds(wave, bufsize, playhead_at(wave, bufsize, index));
    lemma_step_towards_the_end_node(wave, bufsize, head);
    assert(playhead_at(wave, bufsize, index + 1) == tick(
        wave,
        bufsize,
        playhead_at(wave, bufsize, index),
    ));
}

/// While a segment lasts, one frame moves the sample by one step of its line:
/// by the distance between the two nodes times the increment, and by rounding
/// no more than one unit beyond.
pub proof fn law_one_frame_is_one_step(wave: WaveModel, bufsize: nat, index: nat)
    requires
        wave.well_formed(),
        wave.nodes.len() > 0,
        bufsize <= usize::MAX,
        settle(wave, bufsize, playhead_at(wave, bufsize, index)).left >= 2,
    ensures
        ({
            let head = settle(wave, bufsize, playhead_at(wave, bufsize, index));
            let from = wave.nodes[head.cursor as int].amplitude as int;
            let to = end_amplitude(wave, head);
            let step = segment_len(wave, bufsize, head.cursor).increment();
            let this = frame_at(wave, bufsize, index);
            let next = frame_at(wave, bufsize, index + 1);
            &&& from <= to ==> 0 <= (next - this) * PROGRESS_ONE <= (to - from) * step
                + PROGRESS_ONE
            &&& to <= from ==> 0 <= (this - next) * PROGRESS_ONE <= (from - to) * step
                + PROGRESS_ONE
        }),
{
    let head = settle(wave, bufsize, playhead_at(wave, bufsize, index));
    let from = wave.nodes[head.cursor as int].amplitude as int;
    let to = end_amplitude(wave, head);
    let step = segment_len(wave, bufsize, head.cursor).increment();
    lemma_playhead_in_bounds(wave, bufsize, index);
    lemma_settle_in_bounds(wave, bufsize, playhead_at(wave, bufsize, index));
    assert(head.progress + step <= PROGRESS_ONE) by (nonlinear_arith)
        requires
            head.progress + head.left * step <= PROGRESS_ONE,
            head.left >= 2,
            step >= 0,
    ;
    assert(playhead_at(wave, bufsize, index + 1) == tick(
        wave,
        bufsize,
        playhead_at(wave, bufsize, index),
    ));
    lemma_lerp_monotone(from, to, head.progress as int, (head.progress + step) as int);
    let this = frame_at(wave, bufsize, index);
    let next = frame_at(wave, bufsize, index + 1);
    assert(from <= to ==> 0 <= (next - this) * PROGRESS_ONE) by (nonlinear_arith)
        requires
            from <= to ==> this <= next,
    ;
    assert(to <= from ==> 0 <= (this - next) * PROGRESS_ONE) by (nonlinear_arith)
        requires
            to <= from ==> next <= this,
    ;
}

/// Playback has no jumps between buffers: while nodes and frequency stay as
/// they are, the first sample of a buffer lies between the last sample of the
/// buffer before it and the node that ends the segment of that sample, whatever
/// the lengths of the two buffers. Where the segment goes on in the new buffer,
/// or has come exactly to its end, the two samples are one step of the line
/// apart.
pub proof fn law_next_buffer_takes_up_the_line(wave: WaveModel, bufsize: nat, next_bufsize: nat)
    requires
        wave.well_formed(),
        wave.nodes.len() > 0,
        1 <= bufsize <= usize::MAX,
        next_bufsize <= usize::MAX,
    ensures
        after_buffer(wave, bufsize).well_formed(),
        ({
            let rest = after_buffer(wave, bufsize);
            let head = settle(wave, bufsize, playhead_at(wave, bufsize, (bufsize - 1) as nat));
            let target = end_amplitude(wave, head);
            let last = frame_at(wave, bufsize, (bufsize - 1) as nat);
            let first = frame_at(rest, next_bufsize, 0);
            let from = wave.nodes[head.cursor as int].amplitude as int;
            let step = segment_len(wave, bufsize, head.cursor).increment();
            let goes_on = segment_len(rest, next_bufsize, rest.cursor).remaining(rest.progress)
                >= 1 || rest.progress == PROGRESS_ONE;
            &&& rest.cursor == head.cursor
            &&& last <= target ==> last <= first <= target
            &&& target <= last ==> target <= first <= last
            &&& goes_on && from <= target ==> (first - last) * PROGRESS_ONE <= (target - from)
                * step + PROGRESS_ONE
            &&& goes_on && target <= from ==> (last - first) * PROGRESS_ONE <= (from - target)
                * step + PROGRESS_ONE
        }),
{
    let before = playhead_at(wave, bufsize, (bufsize - 1) as nat);
    let head = settle(wave, bufsize, before);
    let rest = after_buffer(wave, bufsize);
    let from = wave.nodes[head.cursor as int].amplitude as int;
    let to = end_amplitude(wave, head);
    let step = segment_len(wave, bufsize, head.cursor).increment();
    lemma_playhead_in_bounds(wave, bufsize, (bufsize - 1) as nat);
    lemma_playhead_in_bounds(wave, bufsize, bufsize);
    lemma_settle_in_bounds(wave, bufsize, before);
    assert(playhead_at(wave, bufsize, bufsize) == tick(wave, bufsize, before));
    assert(head.progress + step <= PROGRESS_ONE) by (nonlinear_arith)
        requires
            head.progress + head.left * step <= PROGRESS_ONE,
            head.left >= 1,
            step >= 0,
    ;
    assert(rest.next_index(rest.cursor) == wave.next_index(head.cursor));
    lemma_lerp_monotone(from, to, head.progress as int, rest.progress as int);
    lemma_lerp_monotone(from, to, rest.progress as int, PROGRESS_ONE as int);
    lemma_lerp_bounds(from, to, rest.progress as int);
    lemma_lerp_bounds(
        to,
        end_amplitude(rest, enter(rest, next_bufsize, rest.next_index(rest.cursor), 0)),
        0,
    );
}

/// One frame from a playhead that has a frame to give: the next sample lies
/// between this one and the node that ends the segment.
proof fn lemma_step_towards_the_end_node(wave: WaveModel, bufsize: nat, head: Playhead)
    requires
        wave.well_formed(),
        wave.nodes.len() > 0,
        bufsize <= usize::MAX,
        in_bounds(wave, bufsize, head),
        head.left >= 1,
    ensures
        ({
            let target = end_amplitude(wave, head);
            let this = amplitude_at(wave, head);
            let next = amplitude_at(
                wave,
                settle(wave, bufsize, tick(wave, bufsize, head)),
            );
            &&& this <= target ==> this <= next <= target
            &&& target <= this ==> target <= next <= this
            &&& head.left == 1 ==> next == target
        }),
{
    let from = wave.nodes[head.cursor as int].amplitude as int;
    let to = end_amplitude(wave, head);
    let step = segment_len(wave, bufsize, head.cursor).increment();
    assert(head.progress + step <= PROGRESS_ONE) by (nonlinear_arith)
        requires
            head.progress + head.left * step <= PROGRESS_ONE,
            head.left >= 1,
            step >= 0,
    ;
    lemma_lerp_monotone(from, to, head.progress as int, (head.progress + step) as int);
    lemma_lerp_monotone(from, to, (head.progress + step) as int, PROGRESS_ONE as int);
    lemma_lerp_bounds(from, to, head.progress as int);
    let after = tick(wave, bufsize, head);
    if after.left == 0 {
        let then = settle(wave, bufsize, after);
        lemma_lerp_bounds(to, end_amplitude(wave, then), 0);
    }
}

/// Binding is idempotent: while a device is bound, a request for one asks
/// nothing of the caller and changes nothing.
pub proof fn law_bind_idempotent()
    ensures
        device_response(DeviceState::Active, DeviceEvent::BindRequested) == Ok::<DeviceAction, SynthError>(
            DeviceAction::Nothing,
        ),
        device_after(DeviceState::Active, DeviceEvent::BindRequested) == DeviceState::Active,
        device_after(
            device_after(DeviceState::Uninitialized, DeviceEvent::Opened),
            DeviceEvent::Opened,
        ) == device_after(DeviceState::Uninitialized, DeviceEvent::Opened),
{
}

/// Unbinding is idempotent: while no device is bound, a request to give it up
/// asks nothing of the caller and changes nothing; after a request to give it up
/// no device is bound, whatever was before.
pub proof fn law_unbind_idempotent(state: DeviceState)
    ensures
        device_response(DeviceState::Uninitialized, DeviceEvent::UnbindRequested) == Ok::<DeviceAction, SynthError>(
            DeviceAction::Nothing,
        ),
        device_after(state, DeviceEvent::UnbindRequested) == DeviceState::Uninitialized,
        device_after(
            device_after(state, DeviceEvent::UnbindRequested),
            DeviceEvent::UnbindRequested,
        ) == device_after(state, DeviceEvent::UnbindRequested),
{
}

} // verus!
