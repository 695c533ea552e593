use waveshaper::fixed::{AMPLITUDE_ONE, FREQ_MAX, FREQ_ONE, PROGRESS_ONE};
use waveshaper::node::WaveNode;
use waveshaper::wave::Wave;

const QUARTER: u32 = 0x4000_0000;
const HALF: u32 = 0x8000_0000;

fn node(wave_pos: u32, amplitude: i32) -> WaveNode {
    WaveNode { wave_pos, amplitude }
}

fn wave_of(nodes: &[(u32, i32)], freq: i64) -> Wave {
    let mut wave = Wave::new(node(nodes[0].0, nodes[0].1));
    for (wave_pos, amplitude) in &nodes[1..] {
        wave.insert_node(node(*wave_pos, *amplitude)).unwrap();
    }
    wave.set_freq(freq);
    wave
}

fn render(wave: &mut Wave, frames: usize) -> Vec<i32> {
    let mut buf = vec![(12345, -12345); frames];
    wave.piecewise_linear(&mut buf);
    for frame in &buf {
        assert_eq!(frame.0, frame.1);
    }
    buf.iter().map(|frame| frame.0).collect()
}

fn floor_div(value: i64, by: i64) -> i64 {
    value.div_euclid(by)
}

#[test]
fn empty_wave_renders_silence() {
    for frames in [0usize, 1, 16, 4410] {
        let mut wave = Wave::empty();
        let mut buf = vec![(9, -9); frames];
        wave.piecewise_linear(&mut buf);
        assert_eq!(buf, vec![(0, 0); frames]);
        assert_eq!(wave.cursor_index(), 0);
        assert_eq!(wave.progress(), 0);
        assert!(wave.nodes().is_empty());
    }
}

#[test]
fn single_node_wave_renders_silence() {
    for frames in [0usize, 1, 2, 7, 256, 4410] {
        let mut wave = Wave::new(node(QUARTER, AMPLITUDE_ONE));
        let mut buf = vec![(9, -9); frames];
        wave.piecewise_linear(&mut buf);
        assert_eq!(buf, vec![(0, 0); frames]);
        assert_eq!(wave.cursor_index(), 0);
        assert_eq!(wave.progress(), 0);
        assert_eq!(wave.nodes().len(), 1);
    }
}

#[test]
fn end_to_end_four_node_wave() {
    let one = AMPLITUDE_ONE;
    let mut wave = wave_of(
        &[(0, 0), (QUARTER, one), (HALF, 0), (QUARTER * 3, -one)],
        FREQ_ONE as i64,
    );
    let out = render(&mut wave, 1000);
    assert_eq!(out.len(), 1000);
    let ends: [i64; 5] = [0, one as i64, 0, -one as i64, 0];
    for (index, value) in out.iter().enumerate() {
        let segment = index / 250;
        let step = (index % 250) as i64;
        let from = ends[segment];
        let to = ends[segment + 1];
        // the straight line through the two nodes
        let direct = from + floor_div((to - from) * step, 250);
        assert!((*value as i64 - direct).abs() <= 1, "frame {index}: {value} against {direct}");
        // the same in floating point, with amplitudes from -1 to 1
        let ideal = (from as f64 + (to - from) as f64 * step as f64 / 250.0) / one as f64;
        assert!((*value as f64 / one as f64 - ideal).abs() < 1.0e-7);
        // and exactly, with the increment that a frame adds
        let progress = step * 17_179_869;
        let exact = floor_div(from * (PROGRESS_ONE as i64 - progress) + to * progress, 1 << 32);
        assert_eq!(*value as i64, exact);
    }
    assert_eq!(out[0], 0);
    assert_eq!(out[1], 67_108);
    assert_eq!(out[125], 8_388_607);
    assert_eq!(out[249], 16_710_106);
    assert_eq!(out[250], one);
    assert_eq!(out[251], 16_710_107);
    assert_eq!(out[499], 67_109);
    assert_eq!(out[500], 0);
    assert_eq!(out[501], -67_109);
    assert_eq!(out[625], -8_388_608);
    assert_eq!(out[750], -one);
    assert_eq!(out[751], -16_710_108);
    assert_eq!(out[999], -67_110);
    // the buffer ended with the last segment: the cursor rests on it
    assert_eq!(wave.cursor_index(), 3);
    assert_eq!(wave.progress(), 4_294_967_250);
}

#[test]
fn end_to_end_shape_rises_falls_and_returns() {
    let one = AMPLITUDE_ONE;
    let mut wave = wave_of(
        &[(0, 0), (QUARTER, one), (HALF, 0), (QUARTER * 3, -one)],
        FREQ_ONE as i64,
    );
    let out = render(&mut wave, 1000);
    for index in 1..=250 {
        assert!(out[index] > out[index - 1]);
    }
    for index in 251..=750 {
        assert!(out[index] < out[index - 1]);
    }
    for index in 751..1000 {
        assert!(out[index] > out[index - 1]);
    }
    assert!(out.iter().all(|value| -one <= *value && *value <= one));
}

#[test]
fn playback_is_continuous_across_buffers() {
    let one = AMPLITUDE_ONE;
    let mut wave = wave_of(&[(0, 0), (HALF, one)], FREQ_ONE as i64);
    let first = render(&mut wave, 256);
    assert_eq!(wave.cursor_index(), 1);
    assert_eq!(wave.progress(), PROGRESS_ONE);
    let second = render(&mut wave, 256);
    // each segment is 128 frames long: one frame moves the sample by 1/128
    let step = one / 128;
    assert_eq!(first[255], step);
    assert_eq!(second[0], 0);
    assert!((second[0] - first[255]).abs() <= step);
    for index in 1..256 {
        assert!((first[index] - first[index - 1]).abs() <= step);
        assert!((second[index] - second[index - 1]).abs() <= step);
    }
    assert_eq!(first, second);
    assert_eq!(first[128], one);
    assert_eq!(first[64], one / 2);
}

#[test]
fn playback_continues_mid_segment_in_the_next_buffer() {
    // segments of 6 and 10 frames, played in buffers of 8
    let nodes = [(0, 0), (0x6000_0000, 800)];
    let mut wave = wave_of(&nodes, FREQ_ONE as i64 / 2);
    let first = render(&mut wave, 8);
    assert_eq!(first, vec![0, 133, 266, 399, 533, 666, 800, 720]);
    assert_eq!(wave.cursor_index(), 1);
    assert_eq!(wave.progress(), 2 * 429_496_729);
    let second = render(&mut wave, 8);
    assert_eq!(second, vec![640, 560, 480, 400, 320, 240, 160, 80]);
    assert_eq!(wave.cursor_index(), 1);
    assert_eq!(wave.progress(), 10 * 429_496_729);
    let third = render(&mut wave, 8);
    assert_eq!(third, first);
    // the same frames come out of one buffer that claims the same cycle length
    let mut whole = wave_of(&nodes, FREQ_ONE as i64);
    let all = render(&mut whole, 16);
    assert_eq!(&all[6..12], &[800, 720, 640, 560, 480, 400]);
}

#[test]
fn doubling_the_frequency_halves_the_cycle() {
    let one = AMPLITUDE_ONE;
    let nodes = [(0, 0), (QUARTER, one), (HALF, 0), (QUARTER * 3, -one)];
    let mut slow = wave_of(&nodes, FREQ_ONE as i64);
    let mut fast = wave_of(&nodes, 2 * FREQ_ONE as i64);
    let slow_out = render(&mut slow, 1000);
    let fast_out = render(&mut fast, 1000);
    // one cycle in 1000 frames against two cycles of 500
    let starts = |out: &Vec<i32>| -> Vec<usize> {
        (1..out.len()).filter(|i| out[*i] == 0 && out[*i - 1] < 0).collect()
    };
    assert_eq!(starts(&slow_out), Vec::<usize>::new());
    assert_eq!(starts(&fast_out), vec![500]);
    for index in 0..500 {
        assert_eq!(fast_out[index], fast_out[index + 500]);
    }
    assert_eq!(fast_out[125], one);
    assert_eq!(slow_out[250], one);
    assert_eq!(fast_out[375], -one);
    assert_eq!(slow_out[750], -one);
}

#[test]
fn empty_buffer_changes_nothing() {
    let mut wave = wave_of(&[(0, 5), (HALF, 9)], FREQ_ONE as i64);
    let mut buf: Vec<(i32, i32)> = Vec::new();
    wave.piecewise_linear(&mut buf);
    assert_eq!(wave.cursor_index(), 0);
    assert_eq!(wave.progress(), 0);
}

#[test]
fn frequency_zero_holds_the_playhead() {
    let mut wave = wave_of(&[(0, 100), (HALF, 300)], FREQ_ONE as i64);
    let out = render(&mut wave, 6);
    // three frames a segment
    assert_eq!(out, vec![100, 166, 233, 300, 233, 166]);
    let mut wave = wave_of(&[(0, 100), (HALF, 300)], FREQ_ONE as i64);
    let out = render(&mut wave, 8);
    assert_eq!(out, vec![100, 150, 200, 250, 300, 250, 200, 150]);
    // a segment of six frames, left after four
    let mut wave = wave_of(&[(0, 100), (QUARTER * 3, 300)], FREQ_ONE as i64 / 2);
    let out = render(&mut wave, 4);
    assert_eq!(out, vec![100, 133, 166, 199]);
    assert_eq!(wave.cursor_index(), 0);
    let rest = wave.progress();
    assert_eq!(rest, 4 * 715_827_882);
    wave.set_freq(0);
    let held = render(&mut wave, 5);
    assert_eq!(held, vec![233; 5]);
    assert_eq!(wave.cursor_index(), 0);
    assert_eq!(wave.progress(), rest);
    // and played on when the frequency comes back
    wave.set_freq(FREQ_ONE as i64 / 2);
    let out = render(&mut wave, 4);
    assert_eq!(out[0], 233);
    assert_eq!(out[1], 266);
}

#[test]
fn frequency_zero_after_a_finished_segment_moves_on_once() {
    let mut wave = wave_of(&[(0, 100), (HALF, 300)], FREQ_ONE as i64);
    let out = render(&mut wave, 4);
    assert_eq!(out, vec![100, 200, 300, 200]);
    assert_eq!(wave.cursor_index(), 1);
    assert_eq!(wave.progress(), PROGRESS_ONE);
    wave.set_freq(0);
    let held = render(&mut wave, 4);
    assert_eq!(held, vec![100; 4]);
    assert_eq!(wave.cursor_index(), 0);
    assert_eq!(wave.progress(), 0);
}

#[test]
fn degenerate_segments_give_one_frame_each() {
    // at the highest frequency a buffer of 64 frames holds 100 cycles:
    // every segment is shorter than a frame and is played as one frame
    let mut wave = wave_of(&[(0, 10), (QUARTER, 20), (HALF, 30)], FREQ_MAX as i64);
    let out = render(&mut wave, 7);
    assert_eq!(out, vec![10, 20, 30, 10, 20, 30, 10]);
    assert_eq!(wave.cursor_index(), 0);
    assert_eq!(wave.progress(), PROGRESS_ONE);
    let out = render(&mut wave, 2);
    assert_eq!(out, vec![20, 30]);
    assert_eq!(wave.cursor_index(), 2);
}

#[test]
fn segment_through_the_wrap_is_played_like_any_other() {
    let mut wave = wave_of(&[(QUARTER, 0), (QUARTER * 3, 1000)], FREQ_ONE as i64);
    let out = render(&mut wave, 8);
    assert_eq!(out, vec![0, 250, 500, 750, 1000, 750, 500, 250]);
    assert_eq!(wave.cursor_index(), 1);
    assert_eq!(wave.progress(), PROGRESS_ONE);
}

#[test]
fn buffer_smaller_than_a_segment() {
    let mut wave = wave_of(&[(0, 0), (HALF, 1 << 20)], FREQ_ONE as i64 / 8);
    // a cycle is 8 buffers long: a segment 16 frames in buffers of 4
    let mut all: Vec<i32> = Vec::new();
    for _ in 0..8 {
        all.extend(render(&mut wave, 4));
    }
    let expected: Vec<i32> = (0..16)
        .map(|i| i * (1 << 16))
        .chain((0..16).map(|i| (16 - i) * (1 << 16)))
        .collect();
    assert_eq!(all, expected);
}

#[test]
fn samples_stay_between_the_nodes_of_their_segment() {
    let mut wave = wave_of(
        &[(0, -700), (0x1000_0000, 900), (0x9000_0000, -50), (0xF000_0000, 30)],
        3 * FREQ_ONE as i64 / 7,
    );
    for _ in 0..40 {
        let out = render(&mut wave, 97);
        assert!(out.iter().all(|value| -700 <= *value && *value <= 900));
    }
}

#[test]
fn node_inserted_while_playing_keeps_the_playback_going() {
    let mut wave = wave_of(&[(QUARTER, 0), (QUARTER * 3, 1000)], FREQ_ONE as i64);
    let out = render(&mut wave, 6);
    assert_eq!(out, vec![0, 333, 666, 1000, 666, 333]);
    assert_eq!(wave.cursor_index(), 1);
    wave.insert_node(node(0, 400)).unwrap();
    assert_eq!(wave.cursor_index(), 2);
    assert_eq!(wave.nodes()[2], node(QUARTER * 3, 1000));
    let progress = wave.progress();
    let out = render(&mut wave, 8);
    // the segment now ends at the new node: a quarter of the cycle, two frames, all played
    assert_eq!(progress, 3 * 1_431_655_765);
    assert_eq!(out[0], 400);
    assert_eq!(out[1], 200);
    assert_eq!(out[2], 0);
    assert_eq!(out[6], 1000);
}

/// The same walk through the segments in floating point, with phases in
/// `[0, 1)` and amplitudes in `[-1, 1]`.
struct FloatWave {
    nodes: Vec<(f64, f64)>,
    cursor: usize,
    progress: f64,
    freq: f64,
}

impl FloatWave {
    fn render(&mut self, frames: usize) -> Vec<f64> {
        let mut out = vec![0.0; frames];
        let count = self.nodes.len();
        let mut current = 0;
        while current < frames {
            let start = self.nodes[self.cursor];
            let end = self.nodes[(self.cursor + 1) % count];
            let relative = if end.0 > start.0 { end.0 - start.0 } else { end.0 + 1.0 - start.0 };
            let length = (relative * (frames as f64 / self.freq)).max(1.0);
            // the sum of the increments is a hair off the true progress: the
            // nudge keeps that from costing a frame where the count is whole
            let remaining = ((1.0 - self.progress) * length + 1.0e-6) as usize;
            let increment = 1.0 / length;
            let stop = frames.min(current + remaining);
            while current < stop {
                out[current] = start.1 * (1.0 - self.progress) + end.1 * self.progress;
                self.progress += increment;
                current += 1;
            }
            if current < frames {
                self.cursor = (self.cursor + 1) % count;
                self.progress = 0.0;
            }
        }
        out
    }
}

#[test]
fn frames_follow_the_floating_point_walk() {
    // phases in sixteenths of the cycle, amplitudes in thousandths
    let shapes: [&[(u32, i32)]; 4] = [
        &[(0, 0), (4, 1000), (8, 0), (12, -1000)],
        &[(1, -250), (15, 750)],
        &[(0, 1000), (3, -1000), (5, 500), (6, 0), (13, -125)],
        &[(2, 100), (10, 900), (11, -900)],
    ];
    // frequency multipliers in halves, and buffer lengths that leave every
    // segment a whole number of frames, or a whole number and a half
    let settings: [(u32, usize); 5] = [(2, 1024), (1, 512), (4, 4096), (8, 2048), (3, 768)];
    for shape in shapes {
        for (halves, frames) in settings {
            let fixed_nodes: Vec<(u32, i32)> = shape
                .iter()
                .map(|(sixteenth, thousandth)| {
                    (sixteenth << 28, (*thousandth as i64 * AMPLITUDE_ONE as i64 / 1000) as i32)
                })
                .collect();
            let mut fixed = wave_of(&fixed_nodes, halves as i64 * FREQ_ONE as i64 / 2);
            let mut float = FloatWave {
                nodes: fixed_nodes
                    .iter()
                    .map(|(phase, amplitude)| {
                        (*phase as f64 / 4_294_967_296.0, *amplitude as f64 / AMPLITUDE_ONE as f64)
                    })
                    .collect(),
                cursor: 0,
                progress: 0.0,
                freq: halves as f64 / 2.0,
            };
            for _ in 0..5 {
                let got = render(&mut fixed, frames);
                let expected = float.render(frames);
                for index in 0..frames {
                    let sample = got[index] as f64 / AMPLITUDE_ONE as f64;
                    assert!(
                        (sample - expected[index]).abs() < 2.0e-6,
                        "frame {index} of {frames} at {halves} halves: {sample} against {}",
                        expected[index]
                    );
                }
                assert_eq!(fixed.cursor_index(), float.cursor);
            }
        }
    }
}

#[test]
fn samples_turn_only_at_the_nodes() {
    // two nodes: the samples rise to the one and fall to the other, and a
    // change of direction, within a buffer or between two, is a node's amplitude
    for (freq, frames) in [(FREQ_ONE as i64, 97usize), (FREQ_ONE as i64 / 3, 64), (5 * FREQ_ONE as i64, 4410)] {
        let mut wave = wave_of(&[(0x1000_0000, -5000), (0xB000_0000, 70_000)], freq);
        let mut all: Vec<i32> = Vec::new();
        for _ in 0..30 {
            all.extend(render(&mut wave, frames));
        }
        let mut turns = 0;
        for window in all.windows(3) {
            let (before, here, after) = (window[0], window[1], window[2]);
            let peak = before < here && here > after;
            let trough = before > here && here < after;
            if peak {
                assert_eq!(here, 70_000);
                turns += 1;
            }
            if trough {
                assert_eq!(here, -5000);
                turns += 1;
            }
        }
        assert!(turns >= 2);
    }
}
