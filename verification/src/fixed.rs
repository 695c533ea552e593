//! The number formats of the synthesis core.
//!
//! * A phase is a `u32`: one full cycle is `2^32`, so every `u32` is a valid
//!   position in `[0, 1)` and phase arithmetic wraps like the cycle does.
//! * Progress through a segment is a `u64` in `[0, PROGRESS_ONE]`.
//! * A frequency multiplier is a `u32` with 16 fractional bits, kept in
//!   `[0, FREQ_MAX]`.
//! * An amplitude, and a sample of a frame, is an `i32` with 24 fractional
//!   bits; interpolation itself does not depend on that scale.
use vstd::prelude::*;

verus! {

/// The length of one full cycle in phase units.
pub const PHASE_CYCLE: u64 = 0x1_0000_0000;

/// The progress value that stands for the end of a segment.
pub const PROGRESS_ONE: u64 = 0x1_0000_0000;

/// The frequency multiplier 1.
pub const FREQ_ONE: u32 = 0x1_0000;

/// The largest frequency multiplier, 100.
pub const FREQ_MAX: u32 = 6_553_600;

/// The frequency multiplier of a new wave, 2.
pub const FREQ_DEFAULT: u32 = 0x2_0000;

/// The amplitude 1.
pub const AMPLITUDE_ONE: i32 = 0x100_0000;

/// The point `progress / PROGRESS_ONE` of the way from `from` to `to`, rounded down.
pub open spec fn lerp(from: int, to: int, progress: int) -> int {
    (from * (PROGRESS_ONE - progress) + to * progress) / (PROGRESS_ONE as int)
}

/// The frequency multiplier nearest to `value` within `[0, FREQ_MAX]`.
pub open spec fn clamp_freq(value: int) -> int {
    if value < 0 {
        0
    } else if value > FREQ_MAX {
        FREQ_MAX as int
    } else {
        value
    }
}

/// An interpolated value never leaves the interval spanned by its two ends, and
/// meets them at progress zero and one.
pub proof fn lemma_lerp_bounds(from: int, to: int, progress: int)
    requires
        0 <= progress <= PROGRESS_ONE,
    ensures
        from <= to ==> from <= lerp(from, to, progress) <= to,
        to <= from ==> to <= lerp(from, to, progress) <= from,
        lerp(from, to, 0) == from,
        lerp(from, to, PROGRESS_ONE as int) == to,
{
    let one = PROGRESS_ONE as int;
    let rest = one - progress;
    let total = from * rest + to * progress;
    assert(from <= to ==> from * one <= total <= to * one) by (nonlinear_arith)
        requires
            total == from * rest + to * progress,
            rest + progress == one,
            rest >= 0,
            progress >= 0,
    ;
    assert(to <= from ==> to * one <= total <= from * one) by (nonlinear_arith)
        requires
            total == from * rest + to * progress,
            rest + progress == one,
            rest >= 0,
            progress >= 0,
    ;
    assert(from * one + to * 0 == from * one) by (nonlinear_arith);
    assert(from * 0 + to * one == to * one) by (nonlinear_arith);
    assert(from * (PROGRESS_ONE - 0) + to * 0 == from * one);
    assert(from * (PROGRESS_ONE - one) + to * one == to * one);
}

/// Interpolation moves from the one end towards the other as progress grows, by
/// no more than the share of the distance that the progress covers.
pub proof fn lemma_lerp_monotone(from: int, to: int, earlier: int, later: int)
    requires
        0 <= earlier <= later <= PROGRESS_ONE,
    ensures
        from <= to ==> lerp(from, to, earlier) <= lerp(from, to, later),
        to <= from ==> lerp(from, to, later) <= lerp(from, to, earlier),
        from <= to ==> (lerp(from, to, later) - lerp(from, to, earlier)) * PROGRESS_ONE <= (to
            - from) * (later - earlier) + PROGRESS_ONE,
        to <= from ==> (lerp(from, to, earlier) - lerp(from, to, later)) * PROGRESS_ONE <= (from
            - to) * (later - earlier) + PROGRESS_ONE,
{
    let one = PROGRESS_ONE as int;
    let low = from * (one - earlier) + to * earlier;
    let high = from * (one - later) + to * later;
    assert(high - low == (to - from) * (later - earlier)) by (nonlinear_arith)
        requires
            low == from * (one - earlier) + to * earlier,
            high == from * (one - later) + to * later,
    ;
    assert(from <= to ==> (to - from) * (later - earlier) >= 0) by (nonlinear_arith)
        requires
            earlier <= later,
    ;
    assert(to <= from ==> (to - from) * (later - earlier) <= 0) by (nonlinear_arith)
        requires
            earlier <= later,
    ;
    assert((from - to) * (later - earlier) == -((to - from) * (later - earlier)))
        by (nonlinear_arith);
    // low == one * (low / one) + low % one, and the same of high
    assert(low == one * (low / one) + low % one && 0 <= low % one < one);
    assert(high == one * (high / one) + high % one && 0 <= high % one < one);
}

/// Interpolates linearly between two amplitudes.
pub fn interpolate(from: i32, to: i32, progress: u64) -> (value: i32)
    requires
        progress <= PROGRESS_ONE,
    ensures
        value == lerp(from as int, to as int, progress as int),
{
    let rest: u64 = PROGRESS_ONE - progress;
    // Both ends are shifted into the unsigned range, so that the division rounds down.
    let lo: u64 = (from as i64 + 0x8000_0000) as u64;
    let hi: u64 = (to as i64 + 0x8000_0000) as u64;
    proof {
        assert(lo * rest + hi * progress <= 0xffff_ffff * 0x1_0000_0000) by (nonlinear_arith)
            requires
                lo <= 0xffff_ffff,
                hi <= 0xffff_ffff,
                rest + progress == 0x1_0000_0000,
                rest >= 0,
                progress >= 0,
        ;
        assert(0 <= lo * rest && 0 <= hi * progress) by (nonlinear_arith)
            requires
                lo >= 0,
                hi >= 0,
                rest >= 0,
                progress >= 0,
        ;
        assert(lo * rest + hi * progress == from * rest + to * progress + 0x8000_0000
            * 0x1_0000_0000) by (nonlinear_arith)
            requires
                lo == from + 0x8000_0000,
                hi == to + 0x8000_0000,
                rest + progress == 0x1_0000_0000,
        ;
        lemma_lerp_bounds(from as int, to as int, progress as int);
    }
    let total: u64 = lo * rest + hi * progress;
    let shifted: u64 = total / PROGRESS_ONE;
    (shifted as i64 - 0x8000_0000) as i32
}

/// Brings a frequency multiplier into `[0, FREQ_MAX]`.
pub fn clamp_frequency(value: i64) -> (freq: u32)
    ensures
        freq == clamp_freq(value as int),
        freq <= FREQ_MAX,
{
    if value < 0 {
        0
    } else if value > FREQ_MAX as i64 {
        FREQ_MAX
    } else {
        value as u32
    }
}

} // verus!
