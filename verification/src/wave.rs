//! The wave: ordered control nodes, a cursor on the segment that is playing, and
//! the generation of frames.
use crate::fixed::{
    clamp_freq, clamp_frequency, interpolate, FREQ_DEFAULT, FREQ_MAX, FREQ_ONE, PHASE_CYCLE,
    PROGRESS_ONE,
};
use crate::interval::{
    interval_len, lemma_interval_len_well_formed, lemma_progress_stays, lemma_remaining_at_start,
    phase_span, IntervalLen,
};
use crate::node::{
    has_phase, inserted, is_insertion_point, lemma_insert_keeps_order, search_phase,
    strictly_increasing, SynthError, WaveNode,
};
use crate::playhead::{
    after_buffer, enter, frame_at, lemma_enter_in_bounds, playhead_at, segment_len, settle, tick,
    Playhead,
};
use vstd::prelude::*;

verus! {

/// What a wave is, as plain mathematics.
pub struct WaveModel {
    /// The control nodes in playing order.
    pub nodes: Seq<WaveNode>,
    /// Index of the node that begins the segment that is playing.
    pub cursor: nat,
    /// How far that segment has been played, out of `PROGRESS_ONE`.
    pub progress: nat,
    /// The frequency multiplier.
    pub freq: nat,
}

impl WaveModel {
    /// The nodes are ordered by phase without repetition, the cursor points at one
    /// of them, and progress and frequency are within their ranges.
    pub open spec fn well_formed(self) -> bool {
        &&& strictly_increasing(self.nodes)
        &&& self.nodes.len() > 0 ==> self.cursor < self.nodes.len()
        &&& self.nodes.len() == 0 ==> self.cursor == 0
        &&& self.progress <= PROGRESS_ONE
        &&& self.freq <= FREQ_MAX
    }

    /// The index of the node after `index`, going round the cycle.
    pub open spec fn next_index(self, index: nat) -> nat {
        if index + 1 < self.nodes.len() {
            index + 1
        } else {
            0
        }
    }

    /// The model after an attempt to insert `node`. The cursor stays on the node
    /// that it was on.
    pub open spec fn with_node(self, node: WaveNode) -> WaveModel {
        if has_phase(self.nodes, node.wave_pos) {
            self
        } else {
            WaveModel {
                nodes: inserted(self.nodes, node),
                cursor: if self.nodes.len() > 0 && self.nodes[self.cursor as int].wave_pos
                    > node.wave_pos {
                    self.cursor + 1
                } else {
                    self.cursor
                },
                ..self
            }
        }
    }
}

/// An ordered, cyclic set of control nodes with the state of its playback.
pub struct Wave {
    node_list: Vec<WaveNode>,
    curr_node_index: usize,
    interval_progress: u64,
    freq_mult: u32,
}

impl View for Wave {
    type V = WaveModel;

    closed spec fn view(&self) -> WaveModel {
        WaveModel {
            nodes: self.node_list@,
            cursor: self.curr_node_index as nat,
            progress: self.interval_progress as nat,
            freq: self.freq_mult as nat,
        }
    }
}

impl Wave {
    /// A wave without nodes, with the default frequency multiplier.
    pub fn empty() -> (wave: Wave)
        ensures
            wave@ == (WaveModel {
                nodes: Seq::empty(),
                cursor: 0,
                progress: 0,
                freq: FREQ_DEFAULT as nat,
            }),
            wave@.well_formed(),
    {
        Wave {
            node_list: Vec::new(),
            curr_node_index: 0,
            interval_progress: 0,
            freq_mult: FREQ_DEFAULT,
        }
    }

    /// A wave of one node, at rest on it, with the default frequency multiplier.
    pub fn new(init_node: WaveNode) -> (wave: Wave)
        ensures
            wave@ == (WaveModel {
                nodes: seq![init_node],
                cursor: 0,
                progress: 0,
                freq: FREQ_DEFAULT as nat,
            }),
            wave@.well_formed(),
    {
        let mut node_list: Vec<WaveNode> = Vec::new();
        node_list.push(init_node);
        Wave { node_list, curr_node_index: 0, interval_progress: 0, freq_mult: FREQ_DEFAULT }
    }

    /// The control nodes in playing order.
    pub fn nodes(&self) -> (nodes: &Vec<WaveNode>)
        ensures
            nodes@ == self@.nodes,
    {
        &self.node_list
    }

    /// Index of the node that begins the segment that is playing.
    pub fn cursor_index(&self) -> (index: usize)
        ensures
            index == self@.cursor,
    {
        self.curr_node_index
    }

    /// Progress through the segment that is playing, out of `PROGRESS_ONE`.
    pub fn progress(&self) -> (progress: u64)
        ensures
            progress == self@.progress,
    {
        self.interval_progress
    }

    /// The frequency multiplier.
    pub fn frequency(&self) -> (freq: u32)
        ensures
            freq == self@.freq,
    {
        self.freq_mult
    }

    /// Stores the frequency multiplier nearest to `new_freq` within `[0, FREQ_MAX]`.
    pub fn set_freq(&mut self, new_freq: i64)
        ensures
            final(self)@ == (WaveModel { freq: clamp_freq(new_freq as int) as nat, ..old(self)@ }),
            old(self)@.well_formed() ==> final(self)@.well_formed(),
    {
        self.freq_mult = clamp_frequency(new_freq);
    }

    /// Inserts `new_node` where it keeps the nodes ordered by phase and returns
    /// its index. Where a node already sits at exactly that phase nothing changes
    /// and `DuplicatePhase` is returned. The cursor stays on its node.
    pub fn insert_node(&mut self, new_node: WaveNode) -> (outcome: Result<usize, SynthError>)
        requires
            old(self)@.well_formed(),
        ensures
            final(self)@.well_formed(),
            strictly_increasing(final(self)@.nodes),
            final(self)@ == old(self)@.with_node(new_node),
            match outcome {
                Ok(index) => {
                    &&& !has_phase(old(self)@.nodes, new_node.wave_pos)
                    &&& is_insertion_point(old(self)@.nodes, new_node.wave_pos, index as int)
                    &&& final(self)@.nodes == old(self)@.nodes.insert(index as int, new_node)
                    &&& old(self)@.nodes.len() > 0 ==> final(self)@.nodes[final(self)@.cursor as int]
                        == old(self)@.nodes[old(self)@.cursor as int]
                },
                Err(error) => {
                    &&& error == SynthError::DuplicatePhase
                    &&& has_phase(old(self)@.nodes, new_node.wave_pos)
                    &&& final(self)@ == old(self)@
                },
            },
    {
        match search_phase(&self.node_list, new_node.wave_pos) {
            Ok(_) => Err(SynthError::DuplicatePhase),
            Err(index) => {
                proof {
                    lemma_insert_keeps_order(self.node_list@, new_node, index as int);
                }
                let moves_cursor: bool = self.node_list.len() > 0 && index <= self.curr_node_index;
                self.node_list.insert(index, new_node);
                if moves_cursor {
                    self.curr_node_index = self.curr_node_index + 1;
                }
                Ok(index)
            },
        }
    }

    /// The node that ends the segment that is playing.
    pub fn peek_next_node(&self) -> (node: &WaveNode)
        requires
            self@.well_formed(),
            self@.nodes.len() > 0,
        ensures
            *node == self@.nodes[self@.next_index(self@.cursor) as int],
    {
        let count: usize = self.node_list.len();
        let next: usize = if self.curr_node_index + 1 < count {
            self.curr_node_index + 1
        } else {
            0
        };
        &self.node_list[next]
    }

    /// Moves the cursor to the next node round the cycle.
    pub fn incr_curr_node(&mut self)
        requires
            old(self)@.well_formed(),
            old(self)@.nodes.len() > 0,
        ensures
            final(self)@ == (WaveModel {
                cursor: old(self)@.next_index(old(self)@.cursor),
                ..old(self)@
            }),
            final(self)@.well_formed(),
    {
        let count: usize = self.node_list.len();
        self.curr_node_index = if self.curr_node_index + 1 < count {
            self.curr_node_index + 1
        } else {
            0
        };
    }

    /// The length in frames of the segment from `start_node` to `end_node` in
    /// buffers of `bufsize` frames, at the frequency multiplier of this wave.
    pub fn interval_len_in_samples(
        &self,
        start_node: &WaveNode,
        end_node: &WaveNode,
        bufsize: usize,
    ) -> (len: IntervalLen)
        requires
            self@.freq <= FREQ_MAX,
        ensures
            len == interval_len(phase_span(*start_node, *end_node), bufsize as nat, self@.freq),
            len.well_formed(),
    {
        let span: u64 = if end_node.wave_pos > start_node.wave_pos {
            (end_node.wave_pos - start_node.wave_pos) as u64
        } else {
            end_node.wave_pos as u64 + PHASE_CYCLE - start_node.wave_pos as u64
        };
        proof {
            lemma_interval_len_well_formed(span as nat, bufsize as nat, self.freq_mult as nat);
        }
        if self.freq_mult == 0 {
            IntervalLen::Endless
        } else {
            let num: u128 = span as u128 * bufsize as u128;
            let den: u64 = self.freq_mult as u64 * FREQ_ONE as u64;
            if num < den as u128 {
                IntervalLen::Frames { num: 1, den: 1 }
            } else {
                IntervalLen::Frames { num, den }
            }
        }
    }

    /// Fills `buf` with the next frames of the wave and moves cursor and progress
    /// to where the following buffer takes up. Both channels of a frame hold the
    /// same sample. A wave of fewer than two nodes gives silence and stays as it is.
    pub fn piecewise_linear(&mut self, buf: &mut [(i32, i32)])
        requires
            old(self)@.well_formed(),
        ensures
            final(self)@.well_formed(),
            final(buf)@.len() == old(buf)@.len(),
            old(self)@.nodes.len() < 2 ==> {
                &&& final(self)@ == old(self)@
                &&& forall|i: int|
                    0 <= i < final(buf)@.len() ==> #[trigger] final(buf)@[i] == (0i32, 0i32)
            },
            old(self)@.nodes.len() >= 2 ==> {
                &&& final(self)@ == after_buffer(old(self)@, old(buf)@.len())
                &&& forall|i: int|
                    0 <= i < final(buf)@.len() ==> {
                        &&& (#[trigger] final(buf)@[i]).0 == frame_at(
                            old(self)@,
                            old(buf)@.len(),
                            i as nat,
                        )
                        &&& final(buf)@[i].1 == final(buf)@[i].0
                    }
            },
    {
        let bufsize: usize = buf.len();
        if self.node_list.len() < 2 {
            let mut silent: usize = 0;
            while silent < bufsize
                invariant
                    silent <= bufsize,
                    buf@.len() == bufsize,
                    forall|i: int| 0 <= i < silent ==> #[trigger] buf@[i] == (0i32, 0i32),
                decreases bufsize - silent,
            {
                buf[silent] = (0, 0);
                silent += 1;
            }
            return ;
        }
        let ghost wave = self@;
        let ghost size = bufsize as nat;
        let mut curr_sample: usize = 0;
        while curr_sample < bufsize
            invariant
                curr_sample <= bufsize,
                buf@.len() == bufsize,
                size == bufsize,
                wave.well_formed(),
                wave.nodes.len() >= 2,
                self@.nodes == wave.nodes,
                self@.freq == wave.freq,
                self@.cursor < wave.nodes.len(),
                self@.progress <= PROGRESS_ONE,
                curr_sample < bufsize ==> settle(
                    wave,
                    size,
                    enter(wave, size, self@.cursor, self@.progress),
                ) == settle(wave, size, playhead_at(wave, size, curr_sample as nat)),
                curr_sample == bufsize ==> {
                    &&& self@.cursor == playhead_at(wave, size, size).cursor
                    &&& self@.progress == playhead_at(wave, size, size).progress
                },
                forall|i: int|
                    0 <= i < curr_sample ==> {
                        &&& (#[trigger] buf@[i]).0 == frame_at(wave, size, i as nat)
                        &&& buf@[i].1 == buf@[i].0
                    },
            decreases
                    bufsize - curr_sample,
                    (if self@.progress == 0 {
                        0int
                    } else {
                        1int
                    }),
        {
            let start_node: WaveNode = self.node_list[self.curr_node_index];
            let end_node: WaveNode = *self.peek_next_node();
            let interval_len_samples: IntervalLen = self.interval_len_in_samples(
                &start_node,
                &end_node,
                bufsize,
            );
            let intvl_samples_remain: usize = Self::interval_samples_remaining(
                interval_len_samples,
                self.interval_progress,
            );
            let room: usize = bufsize - curr_sample;
            let run: usize = if intvl_samples_remain < room {
                intvl_samples_remain
            } else {
                room
            };
            let end_sample: usize = curr_sample + run;
            let progress_incr: u64 = interval_len_samples.progress_increment();
            let ghost first = curr_sample;
            let ghost from = self@.progress;
            let ghost cursor = self@.cursor;
            proof {
                assert(interval_len_samples == segment_len(wave, size, cursor));
                lemma_progress_stays(interval_len_samples, from, run as nat);
                lemma_enter_in_bounds(wave, size, cursor, from);
                lemma_enter_in_bounds(wave, size, wave.next_index(cursor), 0);
                assert(0 * progress_incr == 0) by (nonlinear_arith);
            }
            while curr_sample < end_sample
                invariant
                    first <= curr_sample <= end_sample <= bufsize,
                    end_sample == first + run,
                    run <= intvl_samples_remain,
                    buf@.len() == bufsize,
                    size == bufsize,
                    wave.well_formed(),
                    wave.nodes.len() >= 2,
                    self@.nodes == wave.nodes,
                    self@.freq == wave.freq,
                    self@.cursor == cursor,
                    cursor < wave.nodes.len(),
                    start_node == wave.nodes[cursor as int],
                    end_node == wave.nodes[wave.next_index(cursor) as int],
                    interval_len_samples == segment_len(wave, size, cursor),
                    progress_incr == interval_len_samples.increment(),
                    self@.progress == from + (curr_sample - first) * progress_incr,
                    from + run * progress_incr <= PROGRESS_ONE,
                    self@.progress <= PROGRESS_ONE,
                    curr_sample == first ==> settle(wave, size, enter(wave, size, cursor, from))
                        == settle(wave, size, playhead_at(wave, size, curr_sample as nat)),
                    enter(wave, size, cursor, from).left == intvl_samples_remain,
                    curr_sample > first ==> playhead_at(wave, size, curr_sample as nat) == (
                    Playhead {
                        cursor,
                        progress: self@.progress,
                        left: (intvl_samples_remain - (curr_sample - first)) as nat,
                    }),
                    forall|i: int|
                        0 <= i < curr_sample ==> {
                            &&& (#[trigger] buf@[i]).0 == frame_at(wave, size, i as nat)
                            &&& buf@[i].1 == buf@[i].0
                        },
                decreases end_sample - curr_sample,
            {
                let ghost played = (curr_sample - first) as nat;
                let ghost head = Playhead {
                    cursor,
                    progress: self@.progress,
                    left: (intvl_samples_remain - played) as nat,
                };
                proof {
                    if played == 0 {
                        assert(played * progress_incr == 0) by (nonlinear_arith)
                            requires
                                played == 0,
                        ;
                        assert(enter(wave, size, cursor, from) == head);
                    }
                    assert(settle(wave, size, playhead_at(wave, size, curr_sample as nat))
                        == head);
                    assert((played + 1) * progress_incr == played * progress_incr
                        + progress_incr) by (nonlinear_arith);
                    assert((played + 1) * progress_incr <= run * progress_incr)
                        by (nonlinear_arith)
                        requires
                            played + 1 <= run,
                            progress_incr >= 0,
                    ;
                }
                let value: i32 = interpolate(
                    start_node.amplitude,
                    end_node.amplitude,
                    self.interval_progress,
                );
                buf[curr_sample] = (value, value);
                self.interval_progress += progress_incr;
                curr_sample += 1;
                proof {
                    assert(playhead_at(wave, size, curr_sample as nat) == tick(
                        wave,
                        size,
                        playhead_at(wave, size, (curr_sample - 1) as nat),
                    ));
                }
            }
            if curr_sample < bufsize {
                proof {
                    lemma_remaining_at_start(interval_len_samples);
                }
                self.incr_curr_node();
                self.interval_progress = 0;
            }
        }
    }

    /// The whole frames that are left of a segment of length `intvl_sample_len` at
    /// `curr_progress`: the rest of the segment times its length, rounded down
    /// and held within `usize`.
    pub fn interval_samples_remaining(intvl_sample_len: IntervalLen, curr_progress: u64) -> (left:
        usize)
        requires
            intvl_sample_len.well_formed(),
            curr_progress <= PROGRESS_ONE,
        ensures
            left == intvl_sample_len.remaining(curr_progress as nat),
    {
        match intvl_sample_len {
            IntervalLen::Endless => if curr_progress < PROGRESS_ONE {
                usize::MAX
            } else {
                0
            },
            IntervalLen::Frames { num, den } => {
                let rest: u128 = (PROGRESS_ONE - curr_progress) as u128;
                assert(rest * num <= 0x1_0000_0000 * 0xffff_ffff_ffff_ffff_0000_0000)
                    by (nonlinear_arith)
                    requires
                        0 <= rest <= 0x1_0000_0000,
                        0 <= num <= 0xffff_ffff_ffff_ffff_0000_0000,
                ;
                let scaled: u128 = PROGRESS_ONE as u128 * den as u128;
                let frames: u128 = rest * num / scaled;
                if frames > usize::MAX as u128 {
                    usize::MAX
                } else {
                    frames as usize
                }
            },
        }
    }
}

} // verus!
