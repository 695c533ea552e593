//! The length of a segment, counted in output frames.
//!
//! A segment that spans `span` phase units of a cycle, played into buffers of
//! `bufsize` frames at the frequency multiplier `freq`, lasts
//! `(span / PHASE_CYCLE) * (bufsize / (freq / FREQ_ONE))` frames. That number
//! is kept as the exact fraction `span * bufsize / (freq * FREQ_ONE)`.
use crate::fixed::{FREQ_MAX, FREQ_ONE, PHASE_CYCLE, PROGRESS_ONE};
use crate::node::WaveNode;
use vstd::prelude::*;

verus! {

/// The largest numerator of a segment length: a full cycle in the longest buffer.
pub const FRAMES_NUM_MAX: u128 = 0xffff_ffff_ffff_ffff_0000_0000;

/// The largest denominator of a segment length: `FREQ_MAX * FREQ_ONE`.
pub const FRAMES_DEN_MAX: u64 = 429_496_729_600;

/// How many frames a segment lasts.
#[derive(Clone, Copy, Debug, PartialEq, Eq, Structural)]
pub enum IntervalLen {
    /// At frequency zero the playhead stands still and the segment never runs out.
    Endless,
    /// `num / den` frames, at least one.
    Frames { num: u128, den: u64 },
}

impl IntervalLen {
    /// The fraction is at least one frame and within the limits of the formats.
    pub open spec fn well_formed(self) -> bool {
        match self {
            IntervalLen::Endless => true,
            IntervalLen::Frames { num, den } => 1 <= den <= num && den <= FRAMES_DEN_MAX && num
                <= FRAMES_NUM_MAX,
        }
    }

    /// The length in whole frames, rounded down. An endless segment outlasts
    /// every buffer.
    pub open spec fn whole_frames(self) -> nat {
        match self {
            IntervalLen::Endless => usize::MAX as nat,
            IntervalLen::Frames { num, den } => num as nat / den as nat,
        }
    }

    /// The whole frames that are left of the segment at `progress`:
    /// `(1 - progress) * length`, rounded down and held within `usize`.
    pub open spec fn remaining(self, progress: nat) -> nat {
        match self {
            IntervalLen::Endless => if progress < PROGRESS_ONE {
                usize::MAX as nat
            } else {
                0
            },
            IntervalLen::Frames { num, den } => {
                let frames = ((PROGRESS_ONE - progress) * num) as nat / (PROGRESS_ONE * den) as nat;
                if frames > usize::MAX {
                    usize::MAX as nat
                } else {
                    frames
                }
            },
        }
    }

    /// The progress that one frame adds: `1 / length`, rounded down.
    pub open spec fn increment(self) -> nat {
        match self {
            IntervalLen::Endless => 0,
            IntervalLen::Frames { num, den } => (PROGRESS_ONE * den) as nat / num as nat,
        }
    }

    /// The progress that one frame adds.
    pub fn progress_increment(&self) -> (step: u64)
        requires
            self.well_formed(),
        ensures
            step == self.increment(),
            step <= PROGRESS_ONE,
    {
        match *self {
            IntervalLen::Endless => 0,
            IntervalLen::Frames { num, den } => {
                let scaled: u128 = PROGRESS_ONE as u128 * den as u128;
                proof {
                    lemma_increment_bound(num as nat, den as nat);
                }
                (scaled / num) as u64
            },
        }
    }
}

/// The part of the cycle between two nodes, in phase units. Where the end does
/// not lie after the start the segment runs through the wrap of the cycle.
pub open spec fn phase_span(start: WaveNode, end: WaveNode) -> nat {
    if end.wave_pos > start.wave_pos {
        (end.wave_pos - start.wave_pos) as nat
    } else {
        (end.wave_pos + PHASE_CYCLE - start.wave_pos) as nat
    }
}

/// The length of a segment of `span` phase units in buffers of `bufsize` frames at
/// the frequency multiplier `freq`. A segment shorter than one frame counts as one
/// frame.
pub open spec fn interval_len(span: nat, bufsize: nat, freq: nat) -> IntervalLen {
    if freq == 0 {
        IntervalLen::Endless
    } else if span * bufsize < freq * FREQ_ONE {
        IntervalLen::Frames { num: 1, den: 1 }
    } else {
        IntervalLen::Frames { num: (span * bufsize) as u128, den: (freq * FREQ_ONE) as u64 }
    }
}

/// The progress increment of a well-formed length is at most one whole segment.
pub proof fn lemma_increment_bound(num: nat, den: nat)
    requires
        1 <= den <= num,
    ensures
        (PROGRESS_ONE * den) as nat / num <= PROGRESS_ONE,
{
    let one = PROGRESS_ONE as nat;
    assert(one * den <= one * num) by (nonlinear_arith)
        requires
            den <= num,
    ;
    vstd::arithmetic::div_mod::lemma_div_is_ordered((one * den) as int, (one * num) as int, num as int);
    vstd::arithmetic::div_mod::lemma_div_multiples_vanish(one as int, num as int);
    assert(one * num == num * one) by (nonlinear_arith);
}

/// The length of a segment between two nodes is well formed, and its fraction is
/// the exact one.
pub proof fn lemma_interval_len_well_formed(span: nat, bufsize: nat, freq: nat)
    requires
        1 <= span <= PHASE_CYCLE,
        bufsize <= usize::MAX,
        freq <= FREQ_MAX,
    ensures
        interval_len(span, bufsize, freq).well_formed(),
        span * bufsize <= FRAMES_NUM_MAX,
        freq * FREQ_ONE <= FRAMES_DEN_MAX,
{
    assert(span * bufsize <= 0x1_0000_0000 * 0xffff_ffff_ffff_ffff) by (nonlinear_arith)
        requires
            span <= 0x1_0000_0000,
            bufsize <= 0xffff_ffff_ffff_ffff,
    ;
}

/// A segment that is entered at its start has at least one frame left.
pub proof fn lemma_remaining_at_start(len: IntervalLen)
    requires
        len.well_formed(),
    ensures
        len.remaining(0) >= 1,
        len.whole_frames() >= 1,
        len.remaining(0) == if len.whole_frames() > usize::MAX {
            usize::MAX as nat
        } else {
            len.whole_frames()
        },
{
    match len {
        IntervalLen::Endless => {},
        IntervalLen::Frames { num, den } => {
            let one = PROGRESS_ONE as nat;
            let n = num as nat;
            let d = den as nat;
            assert((one * n) as nat / (one * d) as nat == n / d) by {
                vstd::arithmetic::div_mod::lemma_div_denominator((one * n) as int, one as int, d as int);
                vstd::arithmetic::div_mod::lemma_div_multiples_vanish(n as int, one as int);
                assert(one * n == n * one) by (nonlinear_arith);
            }
            assert(n / d >= 1) by {
                vstd::arithmetic::div_mod::lemma_div_is_ordered(d as int, n as int, d as int);
                vstd::arithmetic::div_mod::lemma_div_basics(d as int);
            }
            assert((PROGRESS_ONE - 0) * num == one * n);
        },
    }
}

/// Playing the frames that are left of a segment never carries the progress
/// past the end of the segment.
pub proof fn lemma_progress_stays(len: IntervalLen, progress: nat, frames: nat)
    requires
        len.well_formed(),
        progress <= PROGRESS_ONE,
        frames <= len.remaining(progress),
    ensures
        progress + frames * len.increment() <= PROGRESS_ONE,
{
    match len {
        IntervalLen::Endless => {
            assert(frames * 0 == 0) by (nonlinear_arith);
        },
        IntervalLen::Frames { num, den } => {
            let one = PROGRESS_ONE as int;
            let n = num as int;
            let d = den as int;
            let rest = one - progress;
            let left = (rest * n) / (one * d);
            let step = (one * d) / n;
            assert(0 <= rest * n && 0 < one * d) by (nonlinear_arith)
                requires
                    rest >= 0,
                    n >= 1,
                    d >= 1,
                    one == 0x1_0000_0000,
            ;
            assert(frames <= left);
            vstd::arithmetic::div_mod::lemma_fundamental_div_mod(rest * n, one * d);
            vstd::arithmetic::div_mod::lemma_fundamental_div_mod(one * d, n);
            vstd::arithmetic::div_mod::lemma_mod_bound(rest * n, one * d);
            vstd::arithmetic::div_mod::lemma_mod_bound(one * d, n);
            vstd::arithmetic::div_mod::lemma_div_pos_is_pos(rest * n, one * d);
            vstd::arithmetic::div_mod::lemma_div_pos_is_pos(one * d, n);
            // left * (one * d) <= rest * n  and  step * n <= one * d
            assert(left * step <= rest) by (nonlinear_arith)
                requires
                    (one * d) * left <= rest * n,
                    n * step <= one * d,
                    left >= 0,
                    step >= 0,
                    n >= 1,
                    rest >= 0,
            ;
            assert(frames * step <= left * step) by (nonlinear_arith)
                requires
                    0 <= frames <= left,
                    step >= 0,
            ;
        },
    }
}

} // verus!
